use axion::{AxionError, DataFrame, DataType, Scalar, Series};

fn tc_int_series(name: &str, vals: &[Option<i32>]) -> Series {
    Series::new_from_options(
        name.to_string(),
        DataType::Int32,
        vals.iter().map(|v| v.map(Scalar::Int32)).collect(),
    )
    .unwrap()
}

fn tc_str_series(name: &str, vals: &[Option<&str>]) -> Series {
    Series::new_from_options(
        name.to_string(),
        DataType::String,
        vals.iter()
            .map(|v| v.map(|s| Scalar::Str(s.to_string())))
            .collect(),
    )
    .unwrap()
}

fn tc_bool_series(name: &str, vals: &[Option<bool>]) -> Series {
    Series::new_from_options(
        name.to_string(),
        DataType::Bool,
        vals.iter().map(|v| v.map(Scalar::Bool)).collect(),
    )
    .unwrap()
}

fn tc_int_cells(s: &Series) -> Vec<Option<i32>> {
    s.data_internal()
        .iter()
        .map(|c| match c {
            Some(Scalar::Int32(v)) => Some(*v),
            None => None,
            other => panic!("expected a 32-bit integer cell, found {:?}", other),
        })
        .collect()
}

fn create_test_df() -> DataFrame {
    DataFrame::new(vec![
        tc_int_series("col_a", &[Some(1), Some(2), None, Some(4)]),
        tc_str_series("col_b", &[Some("a"), Some("b"), Some("c"), Some("d")]),
        tc_bool_series("col_c", &[Some(true), None, Some(false), Some(true)]),
    ])
    .unwrap()
}

#[test]
fn test_new_dataframe_success() {
    let df = create_test_df();
    assert_eq!(df.shape(), (4, 3));
    assert_eq!(df.height(), 4);
    assert_eq!(df.width(), 3);
    assert_eq!(df.columns_names(), vec!["col_a", "col_b", "col_c"]);
    assert_eq!(
        df.dtypes(),
        vec![DataType::Int32, DataType::String, DataType::Bool]
    );
}

#[test]
fn test_new_dataframe_mismatched_lengths() {
    let columns = vec![
        tc_int_series("a", &[Some(1), Some(2)]),
        tc_str_series("b", &[Some("x")]),
    ];
    let df_res = DataFrame::new(columns);
    assert!(df_res.is_err());
    match df_res.err().unwrap() {
        AxionError::MismatchedLengths {
            expected,
            found,
            name,
        } => {
            assert_eq!(expected, 2);
            assert_eq!(found, 1);
            assert_eq!(name, "b");
        }
        _ => panic!("Expected MismatchedLengths error"),
    }
}

#[test]
fn test_new_dataframe_duplicate_names() {
    let columns = vec![
        tc_int_series("a", &[Some(1)]),
        tc_str_series("a", &[Some("x")]),
    ];
    let df_res = DataFrame::new(columns);
    assert!(df_res.is_err());
    match df_res.err().unwrap() {
        AxionError::DuplicateColumnName(name) => {
            assert_eq!(name, "a");
        }
        _ => panic!("Expected DuplicateColumnName error"),
    }
}

#[test]
fn test_new_empty_dataframe() {
    let df = DataFrame::new_empty();
    assert_eq!(df.shape(), (0, 0));
    assert!(df.is_empty());
    assert!(df.schema().is_empty());
}

#[test]
fn test_column_access() {
    let df = create_test_df();

    let col_b_res = df.column("col_b");
    assert!(col_b_res.is_ok());
    let col_b = col_b_res.unwrap();
    assert_eq!(col_b.name(), "col_b");
    assert_eq!(col_b.dtype(), DataType::String);

    let col_d = df.column("col_d");
    assert!(col_d.is_err());
    match col_d.err().unwrap() {
        AxionError::ColumnNotFound(name) => assert_eq!(name, "col_d"),
        _ => panic!("Expected ColumnNotFound error"),
    }

    let col_a = df.column_at(0);
    assert!(col_a.is_ok());
    assert_eq!(col_a.unwrap().name(), "col_a");

    let col_3 = df.column_at(3);
    assert!(col_3.is_err());
    match col_3.err().unwrap() {
        AxionError::ColumnNotFound(name) => assert!(name.contains("index 3")),
        _ => panic!("Expected ColumnNotFound error"),
    }
}

#[test]
fn test_downcast_column() {
    let df = create_test_df();

    let col_a_typed = df.downcast_column("col_a", DataType::Int32);
    assert!(col_a_typed.is_ok());
    assert_eq!(
        tc_int_cells(col_a_typed.unwrap()),
        vec![Some(1), Some(2), None, Some(4)]
    );

    let col_a_as_str = df.downcast_column("col_a", DataType::String);
    assert!(col_a_as_str.is_err());
    match col_a_as_str.err().unwrap() {
        AxionError::TypeMismatch {
            expected,
            found,
            name,
        } => {
            assert_eq!(expected, DataType::String);
            assert_eq!(found, DataType::Int32);
            assert_eq!(name, "col_a");
        }
        _ => panic!("Expected TypeMismatch error"),
    }

    let col_d_typed = df.downcast_column("col_d", DataType::Int32);
    assert!(col_d_typed.is_err());
    match col_d_typed.err().unwrap() {
        AxionError::ColumnNotFound(name) => assert_eq!(name, "col_d"),
        _ => panic!("Expected ColumnNotFound error"),
    }
}

#[test]
fn test_select() {
    let df = create_test_df();
    let selected_df = df
        .select(&vec!["col_c".to_string(), "col_a".to_string()])
        .unwrap();
    assert_eq!(selected_df.shape(), (4, 2));
    assert_eq!(selected_df.columns_names(), vec!["col_c", "col_a"]);
    assert_eq!(selected_df.dtypes(), vec![DataType::Bool, DataType::Int32]);

    let select_err = df.select(&vec!["col_a".to_string(), "col_d".to_string()]);
    assert!(select_err.is_err());
    match select_err.err().unwrap() {
        AxionError::ColumnNotFound(name) => assert_eq!(name, "col_d"),
        _ => panic!("Expected ColumnNotFound error"),
    }
}

#[test]
fn test_drop() {
    let df = create_test_df();
    let dropped_df = df.drop("col_b").unwrap();
    assert_eq!(dropped_df.shape(), (4, 2));
    assert_eq!(dropped_df.columns_names(), vec!["col_a", "col_c"]);

    let drop_err = df.drop("col_d");
    assert!(drop_err.is_err());
    match drop_err.err().unwrap() {
        AxionError::ColumnNotFound(name) => assert_eq!(name, "col_d"),
        _ => panic!("Expected ColumnNotFound error"),
    }
}

#[test]
fn test_head() {
    let df = create_test_df();
    let head_df = df.head(2);
    assert_eq!(head_df.shape(), (2, 3));
    let col_a = head_df.column("col_a").unwrap();
    assert_eq!(tc_int_cells(col_a), vec![Some(1), Some(2)]);

    let head_all = df.head(5);
    assert_eq!(head_all.shape(), (4, 3));
    assert_eq!(head_all.height(), df.height());
}

#[test]
fn test_tail() {
    let df = create_test_df();
    let tail_df = df.tail(2);
    assert_eq!(tail_df.shape(), (2, 3));
    let col_a = tail_df.column("col_a").unwrap();
    assert_eq!(tc_int_cells(col_a), vec![None, Some(4)]);

    let tail_all = df.tail(5);
    assert_eq!(tail_all.shape(), (4, 3));
    assert_eq!(tail_all.height(), df.height());
}

#[test]
fn test_df_add_column() {
    let mut df = create_test_df();
    let initial_width = df.width();
    let initial_height = df.height();

    let new_col = tc_int_series("col_d", &[Some(7), Some(8), Some(9), Some(10)]);
    df.add_column(new_col).unwrap();
    assert_eq!(df.width(), initial_width + 1);
    assert_eq!(df.height(), initial_height);
    assert_eq!(df.columns_names().last().map(|s| s.as_str()), Some("col_d"));

    let series_dup_name = tc_int_series("col_a", &[Some(0), Some(0), Some(0), Some(0)]);
    match df.add_column(series_dup_name) {
        Err(AxionError::DuplicateColumnName(name)) => {
            assert_eq!(name, "col_a");
        }
        _ => panic!("Expected DuplicateColumnName error when adding column with existing name"),
    }
    assert_eq!(df.width(), initial_width + 1);

    let series_wrong_len = tc_int_series("col_e_short", &[Some(100), Some(200)]);
    match df.add_column(series_wrong_len) {
        Err(AxionError::MismatchedLengths {
            expected,
            found,
            name,
        }) => {
            assert_eq!(expected, initial_height);
            assert_eq!(found, 2);
            assert_eq!(name, "col_e_short");
        }
        _ => panic!("Expected MismatchedLengths error when adding column with wrong length"),
    }
    assert_eq!(df.width(), initial_width + 1);
}

#[test]
fn test_df_add_column_to_empty_dataframe() {
    let mut df = DataFrame::new(vec![]).unwrap();
    assert_eq!(df.shape(), (0, 0));

    let series1 = tc_int_series("first_col", &[Some(10), Some(20)]);
    df.add_column(series1).unwrap();
    assert_eq!(df.shape(), (2, 1));
    assert_eq!(df.height(), 2);
    assert_eq!(df.width(), 1);
    assert_eq!(df.column("first_col").unwrap().len(), 2);

    let series2_ok = tc_str_series("second_col", &[Some("a"), Some("b")]);
    df.add_column(series2_ok).unwrap();
    assert_eq!(df.shape(), (2, 2));

    let series3_wrong_len = tc_bool_series("third_col_wrong", &[Some(true)]);
    match df.add_column(series3_wrong_len) {
        Err(AxionError::MismatchedLengths { expected, .. }) => {
            assert_eq!(expected, 2);
        }
        _ => panic!("Expected MismatchedLengths error"),
    }
}

#[test]
fn test_df_drop_column() {
    let mut df = create_test_df();
    let initial_width = df.width();

    let dropped_col_c = df.drop_column("col_c").unwrap();
    assert_eq!(df.width(), initial_width - 1);
    assert!(df.column("col_c").is_err());
    assert_eq!(dropped_col_c.name(), "col_c");
    assert_eq!(dropped_col_c.dtype(), DataType::Bool);

    match df.drop_column("non_existent_col") {
        Err(AxionError::ColumnNotFound(name)) => {
            assert_eq!(name, "non_existent_col");
        }
        _ => panic!("Expected ColumnNotFound error when dropping non-existent column"),
    }
    assert_eq!(df.width(), initial_width - 1);

    let _ = df.drop_column("col_b").unwrap();
    let _ = df.drop_column("col_a").unwrap();
    assert_eq!(df.width(), 0);
    assert_eq!(df.height(), 0);
    assert!(df.columns_names().is_empty());

    match df.drop_column("any_col") {
        Err(AxionError::ColumnNotFound(name)) => {
            assert_eq!(name, "any_col");
        }
        _ => panic!("Expected ColumnNotFound error when dropping from empty DataFrame"),
    }
}

#[test]
fn test_df_rename_column() {
    let mut df = create_test_df();

    let old_name = "col_b";
    let new_name = "col_b_renamed";
    df.rename_column(old_name, new_name).unwrap();
    assert!(df.column(old_name).is_err());
    let renamed_col = df.column(new_name).unwrap();
    assert_eq!(renamed_col.name(), new_name);
    assert_eq!(renamed_col.dtype(), DataType::String);

    match df.rename_column("col_a", new_name) {
        Err(AxionError::DuplicateColumnName(name)) => {
            assert_eq!(name, new_name);
        }
        _ => panic!("Expected DuplicateColumnName error when renaming to an existing column name"),
    }

    match df.rename_column("non_existent_col", "any_new_name") {
        Err(AxionError::ColumnNotFound(name)) => {
            assert_eq!(name, "non_existent_col");
        }
        _ => panic!("Expected ColumnNotFound error when renaming a non-existent column"),
    }

    df.rename_column("col_a", "col_a").unwrap();
    assert!(df.column("col_a").is_ok());

    let expected_names_after_rename = vec!["col_a", "col_b_renamed", "col_c"];
    assert_eq!(df.columns_names(), expected_names_after_rename);
}

#[test]
fn test_df_filter_and_par_filter() {
    let df = create_test_df();
    let mask = tc_bool_series("mask", &[Some(true), Some(false), None, Some(true)]);
    let kept = df.filter(&mask).unwrap();
    assert_eq!(kept.shape(), (2, 3));
    assert_eq!(tc_int_cells(kept.column("col_a").unwrap()), vec![Some(1), Some(4)]);

    let kept_par = df.par_filter(&mask).unwrap();
    assert_eq!(kept_par.shape(), (2, 3));
    assert_eq!(
        tc_int_cells(kept_par.column("col_a").unwrap()),
        tc_int_cells(kept.column("col_a").unwrap())
    );

    let short_mask = tc_bool_series("mask", &[Some(true)]);
    assert!(df.filter(&short_mask).is_err());
    assert!(df.par_filter(&short_mask).is_err());
}

#[test]
fn test_df_sort_single_key() {
    let df = DataFrame::new(vec![
        tc_int_series("n", &[Some(3), None, Some(1), Some(2)]),
        tc_str_series("tag", &[Some("c"), Some("z"), Some("a"), Some("b")]),
    ])
    .unwrap();
    let asc = df.sort(&vec!["n".to_string()], &vec![false]).unwrap();
    // a missing key cell sorts after every value
    assert_eq!(
        tc_int_cells(asc.column("n").unwrap()),
        vec![Some(1), Some(2), Some(3), None]
    );
    let desc = df.sort(&vec!["n".to_string()], &vec![true]).unwrap();
    assert_eq!(
        tc_int_cells(desc.column("n").unwrap()),
        vec![None, Some(3), Some(2), Some(1)]
    );
}

#[test]
fn test_df_sort_stability() {
    // rows with equal keys keep their original relative order
    let df = DataFrame::new(vec![
        tc_str_series("key", &[Some("b"), Some("a"), Some("b"), Some("a")]),
        tc_int_series("pos", &[Some(0), Some(1), Some(2), Some(3)]),
    ])
    .unwrap();
    let sorted = df.sort(&vec!["key".to_string()], &vec![false]).unwrap();
    assert_eq!(
        tc_int_cells(sorted.column("pos").unwrap()),
        vec![Some(1), Some(3), Some(0), Some(2)]
    );
}

#[test]
fn test_df_sort_errors() {
    let df = create_test_df();
    let mismatched = df.sort(&vec!["col_a".to_string()], &vec![false, true]);
    assert!(matches!(mismatched, Err(AxionError::InvalidArgument(_))));
    let missing = df.sort(&vec!["nope".to_string()], &vec![false]);
    assert!(matches!(missing, Err(AxionError::ColumnNotFound(_))));
    let untouched = df.sort(&vec![], &vec![]).unwrap();
    assert_eq!(untouched.shape(), df.shape());
}

#[test]
fn test_df_sort_multi_key() {
    let df = DataFrame::new(vec![
        tc_str_series("k1", &[Some("b"), Some("a"), Some("b"), Some("a")]),
        tc_int_series("k2", &[Some(2), Some(9), Some(1), Some(3)]),
    ])
    .unwrap();
    let sorted = df
        .sort(&vec!["k1".to_string(), "k2".to_string()], &vec![false, true])
        .unwrap();
    assert_eq!(
        tc_int_cells(sorted.column("k2").unwrap()),
        vec![Some(9), Some(3), Some(2), Some(1)]
    );
}
