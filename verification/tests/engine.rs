use polars::PolarsError;
use polars::expr::col;
use polars::expr::lit;
use polars::frame::DataFrame;
use polars::frame::Series;
use polars::value::DataType;
use polars::value::Value;

fn df_ab() -> DataFrame {
    let a = Series::new_i64("a", vec![1, 7, 3, 9]);
    let b = Series::new_i64("b", vec![10, 20, 30, 40]);
    DataFrame::new(vec![a, b]).unwrap()
}

fn cell_i64(df: &DataFrame, name: &str, row: usize) -> Option<i64> {
    let c = df.find_col(&name.to_string()).unwrap();
    match df.columns[c].ca.get(row).unwrap() {
        Some(Value::Int64(x)) => Some(x),
        None => None,
        other => panic!("unexpected cell {:?}", other),
    }
}

fn col_height(df: &DataFrame) -> usize {
    df.height()
}

fn expect_err(r: Result<DataFrame, PolarsError>) -> PolarsError {
    match r {
        Ok(_) => panic!("expected the plan to fail"),
        Err(e) => e,
    }
}

#[test]
fn filter_and_select_pushdown_equal_results() {
    // A filtered selection with pushdown enabled places the filter at or
    // below the selection, and both forms collect to the same table.
    let lf = df_ab().lazy();
    let plan = lf
        .filter(col("a").gt(lit(Value::Int64(5))))
        .select(vec![col("a"), col("b")]);

    let optimized_text = plan.describe_optimized_plan();
    let select_at = optimized_text.find("SELECT").unwrap();
    let filter_at = optimized_text.find("FILTER").unwrap();
    assert!(filter_at > select_at, "filter sits below the selection");

    let unopt = plan.clone().optimization_toggle(false, false, false);
    let got_opt = plan.collect().unwrap();
    let got_plain = unopt.collect().unwrap();
    for df in [&got_opt, &got_plain] {
        assert_eq!(col_height(df), 2);
        assert_eq!(cell_i64(df, "a", 0), Some(7));
        assert_eq!(cell_i64(df, "a", 1), Some(9));
        assert_eq!(cell_i64(df, "b", 0), Some(20));
        assert_eq!(cell_i64(df, "b", 1), Some(40));
    }
}

#[test]
fn describe_plan_text() {
    let lf = df_ab().lazy().filter(col("a").gt(lit(Value::Int64(5))));
    assert_eq!(
        lf.describe_plan(),
        "FILTER (col(a) > lit(i64)) FROM [SCAN TABLE]"
    );
}

#[test]
fn groupby_one_null_key_group() {
    // A group-by whose key column holds one null among distinct values
    // yields exactly one group for the null, aggregating only its rows.
    let key = Series::new_opt(
        "k",
        DataType::Int64,
        &vec![
            Some(Value::Int64(1)),
            None,
            Some(Value::Int64(2)),
            None,
        ],
    );
    let v = Series::new_i64("v", vec![10, 100, 20, 1000]);
    let df = DataFrame::new(vec![key, v]).unwrap();
    let out = df
        .lazy()
        .groupby(vec!["k".to_string()])
        .agg(vec![col("v").sum()])
        .collect()
        .unwrap();
    assert_eq!(col_height(&out), 3);
    // Groups come in first-appearance order: 1, null, 2.
    assert_eq!(cell_i64(&out, "k", 0), Some(1));
    assert_eq!(cell_i64(&out, "k", 1), None);
    assert_eq!(cell_i64(&out, "k", 2), Some(2));
    assert_eq!(cell_i64(&out, "v", 0), Some(10));
    assert_eq!(cell_i64(&out, "v", 1), Some(1100));
    assert_eq!(cell_i64(&out, "v", 2), Some(20));
}

#[test]
fn groupby_count_skips_nulls() {
    let key = Series::new_i64("k", vec![1, 1, 2]);
    let v = Series::new_opt(
        "v",
        DataType::Int64,
        &vec![Some(Value::Int64(5)), None, Some(Value::Int64(7))],
    );
    let df = DataFrame::new(vec![key, v]).unwrap();
    let out = df
        .lazy()
        .groupby(vec!["k".to_string()])
        .agg(vec![col("v").count().alias("n")])
        .collect()
        .unwrap();
    assert_eq!(cell_i64(&out, "n", 0), Some(1));
    assert_eq!(cell_i64(&out, "n", 1), Some(1));
}

fn join_frames() -> (DataFrame, DataFrame) {
    let lk = Series::new_opt(
        "k",
        DataType::Int64,
        &vec![
            Some(Value::Int64(1)),
            Some(Value::Int64(2)),
            None,
            Some(Value::Int64(2)),
        ],
    );
    let lv = Series::new_i64("lv", vec![10, 20, 30, 40]);
    let left = DataFrame::new(vec![lk, lv]).unwrap();
    let rk = Series::new_opt(
        "k",
        DataType::Int64,
        &vec![Some(Value::Int64(2)), None, Some(Value::Int64(5))],
    );
    let rv = Series::new_i64("rv", vec![200, 300, 500]);
    let right = DataFrame::new(vec![rk, rv]).unwrap();
    (left, right)
}

#[test]
fn inner_join_matches_only() {
    let (left, right) = join_frames();
    let out = left
        .lazy()
        .inner_join(right.lazy(), col("k"), col("k"))
        .collect()
        .unwrap();
    // Two left rows with key 2 each match the single right key 2; the
    // null keys on both sides match nothing, not even each other.
    assert_eq!(col_height(&out), 2);
    assert_eq!(cell_i64(&out, "lv", 0), Some(20));
    assert_eq!(cell_i64(&out, "lv", 1), Some(40));
    assert_eq!(cell_i64(&out, "rv", 0), Some(200));
    assert_eq!(cell_i64(&out, "rv", 1), Some(200));
    // The clashing right key column carries the right-side suffix.
    assert_eq!(cell_i64(&out, "k_right", 0), Some(2));
}

#[test]
fn left_join_keeps_left_rows() {
    let (left, right) = join_frames();
    let out = left
        .lazy()
        .left_join(right.lazy(), col("k"), col("k"))
        .collect()
        .unwrap();
    assert_eq!(col_height(&out), 4);
    assert_eq!(cell_i64(&out, "lv", 0), Some(10));
    assert_eq!(cell_i64(&out, "rv", 0), None);
    assert_eq!(cell_i64(&out, "rv", 1), Some(200));
    assert_eq!(cell_i64(&out, "rv", 2), None);
}

#[test]
fn outer_join_covers_both_sides() {
    let (left, right) = join_frames();
    let out = left
        .lazy()
        .outer_join(right.lazy(), col("k"), col("k"))
        .collect()
        .unwrap();
    // Four left-driven rows plus the two unmatched right rows.
    assert_eq!(col_height(&out), 6);
    assert_eq!(cell_i64(&out, "lv", 4), None);
    assert_eq!(cell_i64(&out, "rv", 4), Some(300));
    assert_eq!(cell_i64(&out, "rv", 5), Some(500));
}

#[test]
fn join_key_type_mismatch() {
    let left = DataFrame::new(vec![Series::new_i64("k", vec![1])]).unwrap();
    let right = DataFrame::new(vec![Series::new_str("k", vec!["x".to_string()])]).unwrap();
    let err = expect_err(
        left.lazy().inner_join(right.lazy(), col("k"), col("k")).collect(),
    );
    assert!(matches!(
        err,
        PolarsError::ExecutionAborted(inner) if matches!(*inner, PolarsError::JoinKeyTypeMismatch)
    ));
}

#[test]
fn sort_is_stable_and_nulls_last() {
    let k = Series::new_opt(
        "k",
        DataType::Int64,
        &vec![
            Some(Value::Int64(2)),
            None,
            Some(Value::Int64(1)),
            Some(Value::Int64(2)),
        ],
    );
    let tag = Series::new_i64("tag", vec![0, 1, 2, 3]);
    let df = DataFrame::new(vec![k, tag]).unwrap();
    let out = df.lazy().sort("k", false).collect().unwrap();
    assert_eq!(cell_i64(&out, "tag", 0), Some(2));
    assert_eq!(cell_i64(&out, "tag", 1), Some(0));
    assert_eq!(cell_i64(&out, "tag", 2), Some(3));
    assert_eq!(cell_i64(&out, "tag", 3), Some(1));
    assert_eq!(cell_i64(&out, "k", 3), None);
}

#[test]
fn sort_descending_keeps_nulls_last() {
    let k = Series::new_opt(
        "k",
        DataType::Int64,
        &vec![None, Some(Value::Int64(1)), Some(Value::Int64(3))],
    );
    let df = DataFrame::new(vec![k]).unwrap();
    let out = df.lazy().sort("k", true).collect().unwrap();
    assert_eq!(cell_i64(&out, "k", 0), Some(3));
    assert_eq!(cell_i64(&out, "k", 1), Some(1));
    assert_eq!(cell_i64(&out, "k", 2), None);
}

#[test]
fn unknown_column_aborts() {
    let err = expect_err(
        df_ab().lazy().filter(col("missing").gt(lit(Value::Int64(0)))).collect(),
    );
    assert!(matches!(
        err,
        PolarsError::ExecutionAborted(inner) if matches!(*inner, PolarsError::UnknownColumn)
    ));
}

#[test]
fn type_mismatch_aborts() {
    let err = expect_err(
        df_ab().lazy().filter(col("a").plus(lit(Value::Bool(true)))).collect(),
    );
    assert!(matches!(
        err,
        PolarsError::ExecutionAborted(inner) if matches!(*inner, PolarsError::TypeMismatch)
    ));
}

#[test]
fn duplicate_column_aborts() {
    let err = expect_err(df_ab().lazy().select(vec![col("a"), col("a")]).collect());
    assert!(matches!(
        err,
        PolarsError::ExecutionAborted(inner) if matches!(*inner, PolarsError::DuplicateColumn)
    ));
}

#[test]
fn shape_mismatch_on_build() {
    let a = Series::new_i64("a", vec![1, 2]);
    let b = Series::new_i64("b", vec![1]);
    assert!(matches!(DataFrame::new(vec![a, b]), Err(PolarsError::ShapeMismatch)));
}

#[test]
fn not_contiguous_and_null_value() {
    let mut ca = polars::chunked::ChunkedArray::new_from_vec("x", vec![1i64, 2]);
    ca.push_chunk(vec![3i64]);
    assert!(matches!(ca.cont_slice(), Err(PolarsError::NotContiguous)));
    assert_eq!(ca.get(2), Some(Some(3)));
    assert_eq!(ca.get(3), None);
    let with_null =
        polars::chunked::ChunkedArray::<i64>::new_from_opt_vec("y", &vec![Some(1i64), None]);
    assert!(matches!(with_null.cont_slice(), Err(PolarsError::NullValue)));
}

#[test]
fn null_propagation_in_expressions() {
    let a = Series::new_opt(
        "a",
        DataType::Int64,
        &vec![Some(Value::Int64(1)), None],
    );
    let df = DataFrame::new(vec![a]).unwrap();
    let out = df
        .lazy()
        .select(vec![col("a").plus(lit(Value::Int64(5))).alias("s")])
        .collect()
        .unwrap();
    assert_eq!(cell_i64(&out, "s", 0), Some(6));
    assert_eq!(cell_i64(&out, "s", 1), None);
}

#[test]
fn with_column_keeps_others() {
    let out = df_ab()
        .lazy()
        .with_column(col("a").plus(col("b")).alias("c"))
        .collect()
        .unwrap();
    assert_eq!(out.width(), 3);
    assert_eq!(cell_i64(&out, "a", 0), Some(1));
    assert_eq!(cell_i64(&out, "c", 3), Some(49));
}

#[test]
fn coercion_widens_mixed_widths() {
    let a = Series::new_i64("a", vec![5]);
    let df = DataFrame::new(vec![a]).unwrap();
    let out = df
        .lazy()
        .select(vec![col("a").plus(lit(Value::Int32(2))).alias("s")])
        .collect()
        .unwrap();
    assert_eq!(cell_i64(&out, "s", 0), Some(7));
}

#[test]
fn optimizer_passes_idempotent_in_practice() {
    // Running the optimizer pipeline on an already optimized plan
    // renders the same text.
    let plan = df_ab()
        .lazy()
        .filter(col("a").gt(lit(Value::Int64(5))))
        .select(vec![col("a")]);
    let once = plan.describe_optimized_plan();
    let lf2 = plan.clone();
    let opt_text = lf2.describe_optimized_plan();
    assert_eq!(once, opt_text);
}
