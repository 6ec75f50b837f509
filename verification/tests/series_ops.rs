use axion::{AxionError, DataType, Scalar, Series};

fn ops_int_cells(s: &Series) -> Vec<Option<i32>> {
    s.data_internal()
        .iter()
        .map(|c| match c {
            Some(Scalar::Int32(v)) => Some(*v),
            None => None,
            other => panic!("expected a 32-bit integer cell, found {:?}", other),
        })
        .collect()
}

fn ops_bool_cells(s: &Series) -> Vec<Option<bool>> {
    s.data_internal()
        .iter()
        .map(|c| match c {
            Some(Scalar::Bool(v)) => Some(*v),
            None => None,
            other => panic!("expected a boolean cell, found {:?}", other),
        })
        .collect()
}

fn ops_series(name: &str, vals: &[Option<i32>]) -> Series {
    Series::new_from_options(
        name.to_string(),
        DataType::Int32,
        vals.iter().map(|v| v.map(Scalar::Int32)).collect(),
    )
    .unwrap()
}

fn ops_str_series(name: &str, vals: &[Option<&str>]) -> Series {
    Series::new_from_options(
        name.to_string(),
        DataType::String,
        vals.iter()
            .map(|v| v.map(|s| Scalar::Str(s.to_string())))
            .collect(),
    )
    .unwrap()
}

#[test]
fn test_series_compare_scalar() {
    let series = ops_series("numbers", &[Some(10), Some(20), None, Some(30)]);

    let gt_result = series.gt(&Scalar::Int32(15)).unwrap();
    assert_eq!(gt_result.name(), "numbers_gt_scalar");
    assert_eq!(
        ops_bool_cells(&gt_result),
        vec![Some(false), Some(true), None, Some(true)]
    );

    let lt_result = series.lt(&Scalar::Int32(25)).unwrap();
    assert_eq!(lt_result.name(), "numbers_lt_scalar");
    assert_eq!(
        ops_bool_cells(&lt_result),
        vec![Some(true), Some(true), None, Some(false)]
    );

    let eq_result = series.eq(&Scalar::Int32(20)).unwrap();
    assert_eq!(eq_result.name(), "numbers_eq_scalar");
    assert_eq!(
        ops_bool_cells(&eq_result),
        vec![Some(false), Some(true), None, Some(false)]
    );

    let neq_result = series.neq(&Scalar::Int32(20)).unwrap();
    assert_eq!(neq_result.name(), "numbers_neq_scalar");
    assert_eq!(
        ops_bool_cells(&neq_result),
        vec![Some(true), Some(false), None, Some(true)]
    );

    let gte_result = series.gte(&Scalar::Int32(20)).unwrap();
    assert_eq!(gte_result.name(), "numbers_gte_scalar");
    assert_eq!(
        ops_bool_cells(&gte_result),
        vec![Some(false), Some(true), None, Some(true)]
    );

    let lte_result = series.lte(&Scalar::Int32(20)).unwrap();
    assert_eq!(lte_result.name(), "numbers_lte_scalar");
    assert_eq!(
        ops_bool_cells(&lte_result),
        vec![Some(true), Some(true), None, Some(false)]
    );
}

#[test]
fn test_series_compare_scalar_with_strings() {
    let series = ops_str_series(
        "words",
        &[Some("apple"), Some("banana"), None, Some("cherry")],
    );

    let gt_result = series.gt(&Scalar::Str("banana".to_string())).unwrap();
    assert_eq!(
        ops_bool_cells(&gt_result),
        vec![Some(false), Some(false), None, Some(true)]
    );

    let eq_result = series.eq(&Scalar::Str("banana".to_string())).unwrap();
    assert_eq!(
        ops_bool_cells(&eq_result),
        vec![Some(false), Some(true), None, Some(false)]
    );
}

#[test]
fn test_series_compare_scalar_short_methods() {
    let series = ops_series("numbers", &[Some(10), Some(20), None, Some(30)]);

    let gt_result = series.gt(&Scalar::Int32(15)).unwrap();
    assert_eq!(gt_result.name(), "numbers_gt_scalar");
    assert_eq!(
        ops_bool_cells(&gt_result),
        vec![Some(false), Some(true), None, Some(true)]
    );

    let eq_result = series.eq(&Scalar::Int32(20)).unwrap();
    assert_eq!(eq_result.name(), "numbers_eq_scalar");
    assert_eq!(
        ops_bool_cells(&eq_result),
        vec![Some(false), Some(true), None, Some(false)]
    );
}

#[test]
fn test_series_compare_series() {
    let series_a = ops_series("a", &[Some(10), Some(20), None, Some(30), Some(40)]);
    let series_b = ops_series("b", &[Some(15), Some(20), Some(25), None, Some(50)]);

    let gt_result = series_a.gt_series(&series_b).unwrap();
    assert_eq!(gt_result.name(), "a_gt_series");
    assert_eq!(
        ops_bool_cells(&gt_result),
        vec![Some(false), Some(false), None, None, Some(false)]
    );

    let eq_result = series_a.eq_series(&series_b).unwrap();
    assert_eq!(eq_result.name(), "a_eq_series");
    assert_eq!(
        ops_bool_cells(&eq_result),
        vec![Some(false), Some(true), None, None, Some(false)]
    );

    let lte_result = series_a.lte_series(&series_b).unwrap();
    assert_eq!(lte_result.name(), "a_lte_series");
    assert_eq!(
        ops_bool_cells(&lte_result),
        vec![Some(true), Some(true), None, None, Some(true)]
    );

    let series_c = ops_str_series("c", &[Some("apple"), None, Some("banana")]);
    let series_d = ops_str_series("d", &[Some("apple"), Some("orange"), None]);
    let eq_str_result = series_c.eq_series(&series_d).unwrap();
    assert_eq!(ops_bool_cells(&eq_str_result), vec![Some(true), None, None]);

    let series_short = ops_series("short", &[Some(1), Some(2)]);
    let mismatch_result = series_a.gt_series(&series_short);
    assert!(mismatch_result.is_err());
    match mismatch_result.err().unwrap() {
        AxionError::MismatchedLengths {
            expected,
            found,
            name,
        } => {
            assert_eq!(expected, series_a.len());
            assert_eq!(found, series_short.len());
            assert_eq!(name, "short");
        }
        _ => panic!("Expected MismatchedLengths error"),
    }
}

#[test]
fn test_unified_compare() {
    let series_a = ops_series("a", &[Some(10), Some(20), None, Some(30), Some(40)]);
    let series_b = ops_series("b", &[Some(15), Some(20), Some(25), None, Some(50)]);

    let gt_scalar_result = series_a.gt(&Scalar::Int32(20)).unwrap();
    assert_eq!(
        ops_bool_cells(&gt_scalar_result),
        vec![Some(false), Some(false), None, Some(true), Some(true)]
    );

    let eq_series_result = series_a.eq_series(&series_b).unwrap();
    assert_eq!(
        ops_bool_cells(&eq_series_result),
        vec![Some(false), Some(true), None, None, Some(false)]
    );
}

#[test]
fn test_series_arith_scalar() {
    let series_int = ops_series("int", &[Some(10), Some(20), None, Some(40)]);

    let add_result = series_int.add_scalar(&Scalar::Int32(5)).unwrap();
    assert_eq!(add_result.name(), "int_add_scalar");
    assert_eq!(
        ops_int_cells(&add_result),
        vec![Some(15), Some(25), None, Some(45)]
    );

    let sub_result = series_int.sub_scalar(&Scalar::Int32(5)).unwrap();
    assert_eq!(sub_result.name(), "int_sub_scalar");
    assert_eq!(
        ops_int_cells(&sub_result),
        vec![Some(5), Some(15), None, Some(35)]
    );

    let mul_result = series_int.mul_scalar(&Scalar::Int32(5)).unwrap();
    assert_eq!(mul_result.name(), "int_mul_scalar");
    assert_eq!(
        ops_int_cells(&mul_result),
        vec![Some(50), Some(100), None, Some(200)]
    );

    let div_result = series_int.div_scalar(&Scalar::Int32(5)).unwrap();
    assert_eq!(div_result.name(), "int_div_scalar");
    assert_eq!(
        ops_int_cells(&div_result),
        vec![Some(2), Some(4), None, Some(8)]
    );

    let rem_result = series_int.rem_scalar(&Scalar::Int32(3)).unwrap();
    assert_eq!(rem_result.name(), "int_rem_scalar");
    assert_eq!(
        ops_int_cells(&rem_result),
        vec![Some(1), Some(2), None, Some(1)]
    );
}

#[test]
fn test_divide_scalar_by_zero_is_no_fault() {
    // dividing [10, null, 30, null] by 2 gives [5, null, 15, null];
    // dividing by zero yields an all-missing result instead of a fault
    let s = ops_series("col", &[Some(10), None, Some(30), None]);
    let halves = s.div_scalar(&Scalar::Int32(2)).unwrap();
    assert_eq!(ops_int_cells(&halves), vec![Some(5), None, Some(15), None]);
    assert_eq!(halves.name(), "col_div_scalar");

    let by_zero = s.div_scalar(&Scalar::Int32(0)).unwrap();
    assert_eq!(ops_int_cells(&by_zero), vec![None, None, None, None]);
    assert_eq!(by_zero.name(), "col_div_scalar_by_zero");

    let rem_zero = s.rem_scalar(&Scalar::Int32(0)).unwrap();
    assert_eq!(ops_int_cells(&rem_zero), vec![None, None, None, None]);
    assert_eq!(rem_zero.name(), "col_rem_scalar_by_zero");
}

#[test]
fn test_series_arith_series() {
    let series_a_int = ops_series("a_int", &[Some(10), Some(20), None, Some(40)]);
    let series_b_int = ops_series("b_int", &[Some(5), Some(2), Some(100), None]);

    let add_result = series_a_int.add_series(&series_b_int).unwrap();
    assert_eq!(add_result.name(), "a_int_add_series_b_int");
    assert_eq!(
        ops_int_cells(&add_result),
        vec![Some(15), Some(22), None, None]
    );

    let sub_result = series_a_int.sub_series(&series_b_int).unwrap();
    assert_eq!(sub_result.name(), "a_int_sub_series_b_int");
    assert_eq!(
        ops_int_cells(&sub_result),
        vec![Some(5), Some(18), None, None]
    );

    let mul_result = series_a_int.mul_series(&series_b_int).unwrap();
    assert_eq!(mul_result.name(), "a_int_mul_series_b_int");
    assert_eq!(
        ops_int_cells(&mul_result),
        vec![Some(50), Some(40), None, None]
    );

    let series_c_int = ops_series("c_int", &[Some(2), Some(5), Some(10), Some(4)]);
    let div_result = series_a_int.div_series(&series_c_int).unwrap();
    assert_eq!(div_result.name(), "a_int_div_series_c_int");
    assert_eq!(
        ops_int_cells(&div_result),
        vec![Some(5), Some(4), None, Some(10)]
    );

    let rem_result = series_a_int.rem_series(&series_c_int).unwrap();
    assert_eq!(rem_result.name(), "a_int_rem_series_c_int");
    assert_eq!(
        ops_int_cells(&rem_result),
        vec![Some(0), Some(0), None, Some(0)]
    );

    let series_short_int = ops_series("short", &[Some(1), Some(2)]);
    let mismatch_result = series_a_int.add_series(&series_short_int);
    assert!(mismatch_result.is_err());
    match mismatch_result.err().unwrap() {
        AxionError::MismatchedLengths {
            expected,
            found,
            name,
        } => {
            assert_eq!(expected, series_a_int.len());
            assert_eq!(found, series_short_int.len());
            assert_eq!(name, "short");
        }
        _ => panic!("Expected MismatchedLengths error"),
    }
}

#[test]
fn test_null_propagation_everywhere() {
    // either operand missing at a position makes every operator's result
    // missing at that position
    let a = ops_series("a", &[None, Some(2), None]);
    let b = ops_series("b", &[Some(1), None, None]);
    for result in [
        a.add_series(&b).unwrap(),
        a.sub_series(&b).unwrap(),
        a.mul_series(&b).unwrap(),
        a.gt_series(&b).unwrap(),
        a.eq_series(&b).unwrap(),
    ] {
        let cells = result.data_internal();
        assert_eq!(cells[0], None);
        assert_eq!(cells[1], None);
        assert_eq!(cells[2], None);
    }
}
