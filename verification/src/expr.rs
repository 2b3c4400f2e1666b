//! The expression tree: column references, literals, arithmetic,
//! comparisons, logical operators, aggregation markers, aliases and
//! casts, with a full mathematical semantics and a verified evaluator.
use vstd::prelude::*;

use crate::PolarsError;
use crate::frame::ColV;
use crate::frame::DataFrame;
use crate::frame::df_find;
use crate::frame::df_height;
use crate::frame::df_wf_v;
use crate::frame::lemma_df_find;
use crate::value::DataType;
use crate::value::Value;
use crate::value::ValueV;
use crate::value::dtype_of;

verus! {

/// A binary operator of the expression algebra.
#[derive(Clone, Copy, Debug, PartialEq, Eq, Structural)]
pub enum Operator {
    Plus,
    Minus,
    Eq,
    Lt,
    Gt,
    And,
    Or,
}

/// An aggregation of a column to one scalar per group.
#[derive(Clone, Copy, Debug, PartialEq, Eq, Structural)]
pub enum AggKind {
    Sum,
    Count,
}

/// An expression: a finite tree, immutable once built.
pub enum Expr {
    Column(String),
    Literal(Value),
    BinaryExpr { left: Box<Expr>, op: Operator, right: Box<Expr> },
    Not(Box<Expr>),
    Agg { kind: AggKind, expr: Box<Expr> },
    Alias { expr: Box<Expr>, name: String },
    Cast { expr: Box<Expr>, dtype: DataType },
}

/// The mathematical view of an expression.
#[verifier::ext_equal]
pub enum ExprV {
    Column(Seq<char>),
    Literal(ValueV),
    BinaryExpr { left: Box<ExprV>, op: Operator, right: Box<ExprV> },
    Not(Box<ExprV>),
    Agg { kind: AggKind, expr: Box<ExprV> },
    Alias { expr: Box<ExprV>, name: Seq<char> },
    Cast { expr: Box<ExprV>, dtype: DataType },
}

pub open spec fn expr_view(e: Expr) -> ExprV
    decreases e,
{
    match e {
        Expr::Column(n) => ExprV::Column(n@),
        Expr::Literal(v) => ExprV::Literal(v@),
        Expr::BinaryExpr { left, op, right } => ExprV::BinaryExpr {
            left: Box::new(expr_view(*left)),
            op,
            right: Box::new(expr_view(*right)),
        },
        Expr::Not(x) => ExprV::Not(Box::new(expr_view(*x))),
        Expr::Agg { kind, expr } => ExprV::Agg { kind, expr: Box::new(expr_view(*expr)) },
        Expr::Alias { expr, name } => ExprV::Alias { expr: Box::new(expr_view(*expr)), name: name@ },
        Expr::Cast { expr, dtype } => ExprV::Cast { expr: Box::new(expr_view(*expr)), dtype },
    }
}

impl View for Expr {
    type V = ExprV;

    open spec fn view(&self) -> ExprV {
        expr_view(*self)
    }
}

/// A reference to the column of this name.
pub fn col(name: &str) -> (r: Expr)
    ensures
        r@ == ExprV::Column(name@),
{
    Expr::Column(name.to_owned())
}

/// A literal value, one copy per row.
pub fn lit(v: Value) -> (r: Expr)
    ensures
        r@ == ExprV::Literal(v@),
{
    Expr::Literal(v)
}

impl Expr {
    pub fn eq(self, other: Expr) -> (r: Expr)
        ensures
            r@ == (ExprV::BinaryExpr {
                left: Box::new(self@),
                op: Operator::Eq,
                right: Box::new(other@),
            }),
    {
        Expr::BinaryExpr { left: Box::new(self), op: Operator::Eq, right: Box::new(other) }
    }

    pub fn lt(self, other: Expr) -> (r: Expr)
        ensures
            r@ == (ExprV::BinaryExpr {
                left: Box::new(self@),
                op: Operator::Lt,
                right: Box::new(other@),
            }),
    {
        Expr::BinaryExpr { left: Box::new(self), op: Operator::Lt, right: Box::new(other) }
    }

    pub fn gt(self, other: Expr) -> (r: Expr)
        ensures
            r@ == (ExprV::BinaryExpr {
                left: Box::new(self@),
                op: Operator::Gt,
                right: Box::new(other@),
            }),
    {
        Expr::BinaryExpr { left: Box::new(self), op: Operator::Gt, right: Box::new(other) }
    }

    pub fn plus(self, other: Expr) -> (r: Expr)
        ensures
            r@ == (ExprV::BinaryExpr {
                left: Box::new(self@),
                op: Operator::Plus,
                right: Box::new(other@),
            }),
    {
        Expr::BinaryExpr { left: Box::new(self), op: Operator::Plus, right: Box::new(other) }
    }

    pub fn minus(self, other: Expr) -> (r: Expr)
        ensures
            r@ == (ExprV::BinaryExpr {
                left: Box::new(self@),
                op: Operator::Minus,
                right: Box::new(other@),
            }),
    {
        Expr::BinaryExpr { left: Box::new(self), op: Operator::Minus, right: Box::new(other) }
    }

    pub fn and(self, other: Expr) -> (r: Expr)
        ensures
            r@ == (ExprV::BinaryExpr {
                left: Box::new(self@),
                op: Operator::And,
                right: Box::new(other@),
            }),
    {
        Expr::BinaryExpr { left: Box::new(self), op: Operator::And, right: Box::new(other) }
    }

    pub fn alias(self, name: &str) -> (r: Expr)
        ensures
            r@ == (ExprV::Alias { expr: Box::new(self@), name: name@ }),
    {
        Expr::Alias { expr: Box::new(self), name: name.to_owned() }
    }

    pub fn sum(self) -> (r: Expr)
        ensures
            r@ == (ExprV::Agg { kind: AggKind::Sum, expr: Box::new(self@) }),
    {
        Expr::Agg { kind: AggKind::Sum, expr: Box::new(self) }
    }

    pub fn count(self) -> (r: Expr)
        ensures
            r@ == (ExprV::Agg { kind: AggKind::Count, expr: Box::new(self@) }),
    {
        Expr::Agg { kind: AggKind::Count, expr: Box::new(self) }
    }

    pub fn cast(self, dtype: DataType) -> (r: Expr)
        ensures
            r@ == (ExprV::Cast { expr: Box::new(self@), dtype }),
    {
        Expr::Cast { expr: Box::new(self), dtype }
    }

    /// A structurally equal copy.
    pub fn dup(&self) -> (r: Expr)
        ensures
            r@ == self@,
        decreases self,
    {
        match self {
            Expr::Column(n) => Expr::Column(n.clone()),
            Expr::Literal(v) => Expr::Literal(v.dup()),
            Expr::BinaryExpr { left, op, right } => Expr::BinaryExpr {
                left: Box::new(left.dup()),
                op: *op,
                right: Box::new(right.dup()),
            },
            Expr::Not(x) => Expr::Not(Box::new(x.dup())),
            Expr::Agg { kind, expr } => Expr::Agg { kind: *kind, expr: Box::new(expr.dup()) },
            Expr::Alias { expr, name } => Expr::Alias {
                expr: Box::new(expr.dup()),
                name: name.clone(),
            },
            Expr::Cast { expr, dtype } => Expr::Cast { expr: Box::new(expr.dup()), dtype: *dtype },
        }
    }
}

/// The name an expression's output column carries.
pub open spec fn expr_out_name(e: ExprV) -> Seq<char>
    decreases e,
{
    match e {
        ExprV::Column(n) => n,
        ExprV::Literal(_) => "literal"@,
        ExprV::BinaryExpr { left, .. } => expr_out_name(*left),
        ExprV::Not(x) => expr_out_name(*x),
        ExprV::Agg { expr, .. } => expr_out_name(*expr),
        ExprV::Alias { name, .. } => name,
        ExprV::Cast { expr, .. } => expr_out_name(*expr),
    }
}

pub open spec fn is_numeric(d: DataType) -> bool {
    d == DataType::Int32 || d == DataType::Int64
}

/// The common type two operands are brought to: equal types stand, and
/// the two integer widths widen to the larger.
pub open spec fn supertype(a: DataType, b: DataType) -> Option<DataType> {
    if a == b {
        Some(a)
    } else if is_numeric(a) && is_numeric(b) {
        Some(DataType::Int64)
    } else {
        None
    }
}

/// The output type of a binary operator on operand types, or `None`
/// where the operator does not apply.
pub open spec fn binop_dtype(op: Operator, a: DataType, b: DataType) -> Option<DataType> {
    match op {
        Operator::Plus | Operator::Minus => if is_numeric(a) && is_numeric(b) {
            supertype(a, b)
        } else {
            None
        },
        Operator::Eq => if supertype(a, b) is Some {
            Some(DataType::Boolean)
        } else {
            None
        },
        Operator::Lt | Operator::Gt => if is_numeric(a) && is_numeric(b) {
            Some(DataType::Boolean)
        } else {
            None
        },
        Operator::And | Operator::Or => if a == DataType::Boolean && b == DataType::Boolean {
            Some(DataType::Boolean)
        } else {
            None
        },
    }
}

pub open spec fn castable(from: DataType, to: DataType) -> bool {
    from == to || (is_numeric(from) && is_numeric(to))
}

/// A 64-bit two's-complement wrap of an exact sum or difference.
pub open spec fn wrap64(x: int) -> int {
    if x > i64::MAX {
        x - 0x1_0000_0000_0000_0000
    } else if x < i64::MIN {
        x + 0x1_0000_0000_0000_0000
    } else {
        x
    }
}

/// A 32-bit two's-complement wrap of an exact sum or difference.
pub open spec fn wrap32(x: int) -> int {
    if x > i32::MAX {
        x - 0x1_0000_0000
    } else if x < i32::MIN {
        x + 0x1_0000_0000
    } else {
        x
    }
}

/// The numeric reading of a value, if it is an integer of either width.
pub open spec fn num_of(v: ValueV) -> Option<int> {
    match v {
        ValueV::Int32(x) => Some(x as int),
        ValueV::Int64(x) => Some(x as int),
        _ => None,
    }
}

pub open spec fn both_i32(a: ValueV, b: ValueV) -> bool {
    a is Int32 && b is Int32
}

/// One binary operator applied to two plain (non-null) values: the
/// result value, or `None` where the kinds do not fit the operator.
pub open spec fn bin_cell(op: Operator, a: ValueV, b: ValueV) -> Option<ValueV> {
    match op {
        Operator::Plus => match (num_of(a), num_of(b)) {
            (Some(x), Some(y)) => if both_i32(a, b) {
                Some(ValueV::Int32(wrap32(x + y) as i32))
            } else {
                Some(ValueV::Int64(wrap64(x + y) as i64))
            },
            _ => None,
        },
        Operator::Minus => match (num_of(a), num_of(b)) {
            (Some(x), Some(y)) => if both_i32(a, b) {
                Some(ValueV::Int32(wrap32(x - y) as i32))
            } else {
                Some(ValueV::Int64(wrap64(x - y) as i64))
            },
            _ => None,
        },
        Operator::Eq => match (num_of(a), num_of(b)) {
            (Some(x), Some(y)) => Some(ValueV::Bool(x == y)),
            _ => match (a, b) {
                (ValueV::Bool(x), ValueV::Bool(y)) => Some(ValueV::Bool(x == y)),
                (ValueV::Str(x), ValueV::Str(y)) => Some(ValueV::Bool(x == y)),
                _ => None,
            },
        },
        Operator::Lt => match (num_of(a), num_of(b)) {
            (Some(x), Some(y)) => Some(ValueV::Bool(x < y)),
            _ => None,
        },
        Operator::Gt => match (num_of(a), num_of(b)) {
            (Some(x), Some(y)) => Some(ValueV::Bool(x > y)),
            _ => None,
        },
        Operator::And => match (a, b) {
            (ValueV::Bool(x), ValueV::Bool(y)) => Some(ValueV::Bool(x && y)),
            _ => None,
        },
        Operator::Or => match (a, b) {
            (ValueV::Bool(x), ValueV::Bool(y)) => Some(ValueV::Bool(x || y)),
            _ => None,
        },
    }
}

/// `Not` on one plain value.
pub open spec fn not_cell(v: ValueV) -> Option<ValueV> {
    match v {
        ValueV::Bool(b) => Some(ValueV::Bool(!b)),
        _ => None,
    }
}

/// A cast of one plain value: identity on its own type, exact widening
/// between the integer widths, and exact narrowing where the value fits
/// (a value out of the narrower range does not cast).
pub open spec fn cast_cell(v: ValueV, to: DataType) -> Option<ValueV> {
    if dtype_of(v) == to {
        Some(v)
    } else {
        match (v, to) {
            (ValueV::Int32(x), DataType::Int64) => Some(ValueV::Int64(x as i64)),
            (ValueV::Int64(x), DataType::Int32) => if i32::MIN <= x <= i32::MAX {
                Some(ValueV::Int32(x as i32))
            } else {
                None
            },
            _ => None,
        }
    }
}

/// Whether every paired row of two cell sequences fits the operator
/// (a null row always fits: it propagates).
pub open spec fn bin_cells_ok(op: Operator, a: Seq<Option<ValueV>>, b: Seq<Option<ValueV>>) -> bool {
    forall|i: int|
        0 <= i < a.len() ==> match (#[trigger] a[i], b[i]) {
            (Some(x), Some(y)) => bin_cell(op, x, y) is Some,
            _ => true,
        }
}

/// The rows of a binary operator applied cell by cell; any null operand
/// makes the row null.
pub open spec fn bin_cells_val(op: Operator, a: Seq<Option<ValueV>>, b: Seq<Option<ValueV>>) -> Seq<
    Option<ValueV>,
> {
    Seq::new(
        a.len(),
        |i: int|
            match (a[i], b[i]) {
                (Some(x), Some(y)) => bin_cell(op, x, y),
                _ => None,
            },
    )
}

pub open spec fn not_cells_ok(a: Seq<Option<ValueV>>) -> bool {
    forall|i: int|
        0 <= i < a.len() ==> match #[trigger] a[i] {
            Some(x) => not_cell(x) is Some,
            None => true,
        }
}

pub open spec fn not_cells_val(a: Seq<Option<ValueV>>) -> Seq<Option<ValueV>> {
    Seq::new(
        a.len(),
        |i: int|
            match a[i] {
                Some(x) => not_cell(x),
                None => None,
            },
    )
}

pub open spec fn cast_cells_ok(a: Seq<Option<ValueV>>, to: DataType) -> bool {
    forall|i: int|
        0 <= i < a.len() ==> match #[trigger] a[i] {
            Some(x) => cast_cell(x, to) is Some,
            None => true,
        }
}

pub open spec fn cast_cells_val(a: Seq<Option<ValueV>>, to: DataType) -> Seq<Option<ValueV>> {
    Seq::new(
        a.len(),
        |i: int|
            match a[i] {
                Some(x) => cast_cell(x, to),
                None => None,
            },
    )
}


/// The column a binary operator yields on two input columns, or the
/// type failure.
pub open spec fn bin_col(op: Operator, a: ColV, b: ColV) -> Result<ColV, PolarsError> {
    match binop_dtype(op, a.dtype, b.dtype) {
        Some(dt) => if bin_cells_ok(op, a.cells, b.cells) {
            Ok(ColV { name: a.name, dtype: dt, cells: bin_cells_val(op, a.cells, b.cells) })
        } else {
            Err(PolarsError::TypeMismatch)
        },
        None => Err(PolarsError::TypeMismatch),
    }
}

/// The column `Not` yields on a boolean input column.
pub open spec fn not_col(a: ColV) -> Result<ColV, PolarsError> {
    if a.dtype == DataType::Boolean && not_cells_ok(a.cells) {
        Ok(ColV { name: a.name, dtype: DataType::Boolean, cells: not_cells_val(a.cells) })
    } else {
        Err(PolarsError::TypeMismatch)
    }
}

/// The column a cast yields on an input column.
pub open spec fn cast_col(a: ColV, to: DataType) -> Result<ColV, PolarsError> {
    if castable(a.dtype, to) && cast_cells_ok(a.cells, to) {
        Ok(ColV { name: a.name, dtype: to, cells: cast_cells_val(a.cells, to) })
    } else {
        Err(PolarsError::TypeMismatch)
    }
}

/// The evaluation of an expression against a table, row for row: the
/// output column, or the first failure. An aggregation marker outside a
/// group-by context is a type error.
pub open spec fn eval_expr_spec(e: ExprV, df: Seq<ColV>) -> Result<ColV, PolarsError>
    decreases e,
{
    match e {
        ExprV::Column(n) => match df_find(df, n) {
            Some(i) => Ok(df[i]),
            None => Err(PolarsError::UnknownColumn),
        },
        ExprV::Literal(v) => Ok(
            ColV {
                name: "literal"@,
                dtype: dtype_of(v),
                cells: Seq::new(df_height(df) as nat, |i: int| Some(v)),
            },
        ),
        ExprV::BinaryExpr { left, op, right } => match (eval_expr_spec(*left, df), eval_expr_spec(
            *right,
            df,
        )) {
            (Err(e1), _) => Err(e1),
            (Ok(_), Err(e2)) => Err(e2),
            (Ok(a), Ok(b)) => bin_col(op, a, b),
        },
        ExprV::Not(x) => match eval_expr_spec(*x, df) {
            Err(e1) => Err(e1),
            Ok(a) => not_col(a),
        },
        ExprV::Agg { .. } => Err(PolarsError::TypeMismatch),
        ExprV::Alias { expr, name } => match eval_expr_spec(*expr, df) {
            Err(e1) => Err(e1),
            Ok(a) => Ok(ColV { name, dtype: a.dtype, cells: a.cells }),
        },
        ExprV::Cast { expr, dtype } => match eval_expr_spec(*expr, df) {
            Err(e1) => Err(e1),
            Ok(a) => cast_col(a, dtype),
        },
    }
}

/// A successful evaluation yields one cell per input row.
pub proof fn lemma_eval_len(e: ExprV, df: Seq<ColV>)
    requires
        df_wf_v(df),
    ensures
        match eval_expr_spec(e, df) {
            Ok(c) => c.cells.len() == df_height(df),
            Err(_) => true,
        },
    decreases e,
{
    match e {
        ExprV::Column(n) => {
            lemma_df_find(df, n);
        },
        ExprV::Literal(_) => {},
        ExprV::BinaryExpr { left, op, right } => {
            lemma_eval_len(*left, df);
            lemma_eval_len(*right, df);
        },
        ExprV::Not(x) => {
            lemma_eval_len(*x, df);
        },
        ExprV::Agg { .. } => {},
        ExprV::Alias { expr, .. } => {
            lemma_eval_len(*expr, df);
        },
        ExprV::Cast { expr, .. } => {
            lemma_eval_len(*expr, df);
        },
    }
}

pub(crate) fn binop_dtype_check(op: Operator, a: DataType, b: DataType) -> (r: Option<DataType>)
    ensures
        r == binop_dtype(op, a, b),
{
    let st: Option<DataType> = if a == b {
        Some(a)
    } else if (a == DataType::Int32 || a == DataType::Int64) && (b == DataType::Int32 || b
        == DataType::Int64) {
        Some(DataType::Int64)
    } else {
        None
    };
    match op {
        Operator::Plus | Operator::Minus => {
            if (a == DataType::Int32 || a == DataType::Int64) && (b == DataType::Int32 || b
                == DataType::Int64) {
                st
            } else {
                None
            }
        },
        Operator::Eq => {
            if st.is_some() {
                Some(DataType::Boolean)
            } else {
                None
            }
        },
        Operator::Lt | Operator::Gt => {
            if (a == DataType::Int32 || a == DataType::Int64) && (b == DataType::Int32 || b
                == DataType::Int64) {
                Some(DataType::Boolean)
            } else {
                None
            }
        },
        Operator::And | Operator::Or => {
            if a == DataType::Boolean && b == DataType::Boolean {
                Some(DataType::Boolean)
            } else {
                None
            }
        },
    }
}

/// One binary operator on two plain values, as `bin_cell` says.
fn bin_cell_exec(op: Operator, a: &Value, b: &Value) -> (r: Option<Value>)
    ensures
        match r {
            Some(v) => bin_cell(op, a@, b@) == Some(v@),
            None => bin_cell(op, a@, b@) is None,
        },
{
    match op {
        Operator::Plus => match (a, b) {
            (Value::Int32(x), Value::Int32(y)) => Some(Value::Int32(x.wrapping_add(*y))),
            (Value::Int32(x), Value::Int64(y)) => Some(Value::Int64((*x as i64).wrapping_add(*y))),
            (Value::Int64(x), Value::Int32(y)) => Some(Value::Int64(x.wrapping_add(*y as i64))),
            (Value::Int64(x), Value::Int64(y)) => Some(Value::Int64(x.wrapping_add(*y))),
            _ => None,
        },
        Operator::Minus => match (a, b) {
            (Value::Int32(x), Value::Int32(y)) => Some(Value::Int32(x.wrapping_sub(*y))),
            (Value::Int32(x), Value::Int64(y)) => Some(Value::Int64((*x as i64).wrapping_sub(*y))),
            (Value::Int64(x), Value::Int32(y)) => Some(Value::Int64(x.wrapping_sub(*y as i64))),
            (Value::Int64(x), Value::Int64(y)) => Some(Value::Int64(x.wrapping_sub(*y))),
            _ => None,
        },
        Operator::Eq => match (a, b) {
            (Value::Int32(x), Value::Int32(y)) => Some(Value::Bool(*x == *y)),
            (Value::Int32(x), Value::Int64(y)) => Some(Value::Bool((*x as i64) == *y)),
            (Value::Int64(x), Value::Int32(y)) => Some(Value::Bool(*x == (*y as i64))),
            (Value::Int64(x), Value::Int64(y)) => Some(Value::Bool(*x == *y)),
            (Value::Bool(x), Value::Bool(y)) => Some(Value::Bool(*x == *y)),
            (Value::Str(x), Value::Str(y)) => Some(Value::Bool(*x == *y)),
            _ => None,
        },
        Operator::Lt => match (a, b) {
            (Value::Int32(x), Value::Int32(y)) => Some(Value::Bool(*x < *y)),
            (Value::Int32(x), Value::Int64(y)) => Some(Value::Bool((*x as i64) < *y)),
            (Value::Int64(x), Value::Int32(y)) => Some(Value::Bool(*x < (*y as i64))),
            (Value::Int64(x), Value::Int64(y)) => Some(Value::Bool(*x < *y)),
            _ => None,
        },
        Operator::Gt => match (a, b) {
            (Value::Int32(x), Value::Int32(y)) => Some(Value::Bool(*x > *y)),
            (Value::Int32(x), Value::Int64(y)) => Some(Value::Bool((*x as i64) > *y)),
            (Value::Int64(x), Value::Int32(y)) => Some(Value::Bool(*x > (*y as i64))),
            (Value::Int64(x), Value::Int64(y)) => Some(Value::Bool(*x > *y)),
            _ => None,
        },
        Operator::And => match (a, b) {
            (Value::Bool(x), Value::Bool(y)) => Some(Value::Bool(*x && *y)),
            _ => None,
        },
        Operator::Or => match (a, b) {
            (Value::Bool(x), Value::Bool(y)) => Some(Value::Bool(*x || *y)),
            _ => None,
        },
    }
}

fn not_cell_exec(a: &Value) -> (r: Option<Value>)
    ensures
        match r {
            Some(v) => not_cell(a@) == Some(v@),
            None => not_cell(a@) is None,
        },
{
    match a {
        Value::Bool(b) => Some(Value::Bool(!*b)),
        _ => None,
    }
}

fn cast_cell_exec(a: &Value, to: DataType) -> (r: Option<Value>)
    ensures
        match r {
            Some(v) => cast_cell(a@, to) == Some(v@),
            None => cast_cell(a@, to) is None,
        },
{
    let d = a.dtype();
    if d == to {
        Some(a.dup())
    } else {
        match (a, to) {
            (Value::Int32(x), DataType::Int64) => Some(Value::Int64(*x as i64)),
            (Value::Int64(x), DataType::Int32) => {
                if (i32::MIN as i64) <= *x && *x <= (i32::MAX as i64) {
                    Some(Value::Int32(*x as i32))
                } else {
                    None
                }
            },
            _ => None,
        }
    }
}

/// Evaluates an expression against a table: one output column of the
/// table's height, or the first failure, exactly as `eval_expr_spec`
/// says.
/// Applies one binary operator to two evaluated columns, as `bin_col`
/// says.
fn eval_bin(sa: &crate::frame::Series, sb: &crate::frame::Series, op: Operator) -> (r: Result<
    crate::frame::Series,
    PolarsError,
>)
    requires
        sa.wf(),
        sb.wf(),
        sa.view_col().cells.len() == sb.view_col().cells.len(),
    ensures
        match r {
            Ok(s) => s.wf() && bin_col(op, sa.view_col(), sb.view_col()) == Ok::<
                ColV,
                PolarsError,
            >(s.view_col()),
            Err(er) => bin_col(op, sa.view_col(), sb.view_col()) == Err::<ColV, PolarsError>(er),
        },
{
    let dt = match binop_dtype_check(op, sa.dtype, sb.dtype) {
        Some(d) => d,
        None => {
            return Err(PolarsError::TypeMismatch);
        },
    };
    let ca = sa.ca.to_opt_vec();
    let cb = sb.ca.to_opt_vec();
    let n = ca.len();
    let mut out: Vec<Option<Value>> = Vec::new();
    let mut i: usize = 0;
    while i < n
        invariant
            n == ca@.len(),
            n == cb@.len(),
            ca@.map_values(|c: Option<Value>| crate::chunked::opt_view(c)) == sa.view_col().cells,
            cb@.map_values(|c: Option<Value>| crate::chunked::opt_view(c)) == sb.view_col().cells,
            i <= n,
            out@.len() == i,
            forall|j: int|
                0 <= j < i ==> match (#[trigger] sa.view_col().cells[j], sb.view_col().cells[j]) {
                    (Some(x), Some(y)) => bin_cell(op, x, y) is Some,
                    _ => true,
                },
            forall|j: int|
                0 <= j < i ==> crate::chunked::opt_view(#[trigger] out@[j]) == (match (
                    sa.view_col().cells[j],
                    sb.view_col().cells[j],
                ) {
                    (Some(x), Some(y)) => bin_cell(op, x, y),
                    _ => None,
                }),
        decreases n - i,
    {
        proof {
            assert(sa.view_col().cells[i as int] == crate::chunked::opt_view(ca@[i as int]));
            assert(sb.view_col().cells[i as int] == crate::chunked::opt_view(cb@[i as int]));
        }
        let cell: Option<Value> = match (&ca[i], &cb[i]) {
            (Some(x), Some(y)) => {
                match bin_cell_exec(op, x, y) {
                    Some(v) => Some(v),
                    None => {
                        proof {
                            assert(!bin_cells_ok(op, sa.view_col().cells, sb.view_col().cells));
                        }
                        return Err(PolarsError::TypeMismatch);
                    },
                }
            },
            _ => None,
        };
        out.push(cell);
        i += 1;
    }
    let s = crate::frame::Series::new_opt(sa.ca.get_name().as_str(), dt, &out);
    proof {
        assert(bin_cells_ok(op, sa.view_col().cells, sb.view_col().cells));
        assert(s.view_col().cells =~= bin_cells_val(op, sa.view_col().cells, sb.view_col().cells));
        assert(s.view_col() =~= (ColV {
            name: sa.view_col().name,
            dtype: dt,
            cells: bin_cells_val(op, sa.view_col().cells, sb.view_col().cells),
        }));
    }
    Ok(s)
}

/// Applies `Not` to an evaluated column, as `not_col` says.
fn eval_not(sa: &crate::frame::Series) -> (r: Result<crate::frame::Series, PolarsError>)
    requires
        sa.wf(),
    ensures
        match r {
            Ok(s) => s.wf() && not_col(sa.view_col()) == Ok::<ColV, PolarsError>(s.view_col()),
            Err(er) => not_col(sa.view_col()) == Err::<ColV, PolarsError>(er),
        },
{
    if sa.dtype != DataType::Boolean {
        return Err(PolarsError::TypeMismatch);
    }
    let ca = sa.ca.to_opt_vec();
    let n = ca.len();
    let mut out: Vec<Option<Value>> = Vec::new();
    let mut i: usize = 0;
    while i < n
        invariant
            n == ca@.len(),
            ca@.map_values(|c: Option<Value>| crate::chunked::opt_view(c)) == sa.view_col().cells,
            i <= n,
            out@.len() == i,
            forall|j: int|
                0 <= j < i ==> match #[trigger] sa.view_col().cells[j] {
                    Some(x) => not_cell(x) is Some,
                    None => true,
                },
            forall|j: int|
                0 <= j < i ==> crate::chunked::opt_view(#[trigger] out@[j]) == (
                match sa.view_col().cells[j] {
                    Some(x) => not_cell(x),
                    None => None,
                }),
        decreases n - i,
    {
        proof {
            assert(sa.view_col().cells[i as int] == crate::chunked::opt_view(ca@[i as int]));
        }
        let cell: Option<Value> = match &ca[i] {
            Some(x) => {
                match not_cell_exec(x) {
                    Some(v) => Some(v),
                    None => {
                        proof {
                            assert(!not_cells_ok(sa.view_col().cells));
                        }
                        return Err(PolarsError::TypeMismatch);
                    },
                }
            },
            None => None,
        };
        out.push(cell);
        i += 1;
    }
    let s = crate::frame::Series::new_opt(sa.ca.get_name().as_str(), DataType::Boolean, &out);
    proof {
        assert(not_cells_ok(sa.view_col().cells));
        assert(s.view_col().cells =~= not_cells_val(sa.view_col().cells));
        assert(s.view_col() =~= (ColV {
            name: sa.view_col().name,
            dtype: DataType::Boolean,
            cells: not_cells_val(sa.view_col().cells),
        }));
    }
    Ok(s)
}

/// Casts an evaluated column, as `cast_col` says.
fn eval_cast(sa: &crate::frame::Series, dtype: DataType) -> (r: Result<
    crate::frame::Series,
    PolarsError,
>)
    requires
        sa.wf(),
    ensures
        match r {
            Ok(s) => s.wf() && cast_col(sa.view_col(), dtype) == Ok::<ColV, PolarsError>(
                s.view_col(),
            ),
            Err(er) => cast_col(sa.view_col(), dtype) == Err::<ColV, PolarsError>(er),
        },
{
    let d = sa.dtype;
    let ok = d == dtype || ((d == DataType::Int32 || d == DataType::Int64) && (dtype
        == DataType::Int32 || dtype == DataType::Int64));
    if !ok {
        return Err(PolarsError::TypeMismatch);
    }
    let ca = sa.ca.to_opt_vec();
    let n = ca.len();
    let mut out: Vec<Option<Value>> = Vec::new();
    let mut i: usize = 0;
    while i < n
        invariant
            n == ca@.len(),
            ca@.map_values(|c: Option<Value>| crate::chunked::opt_view(c)) == sa.view_col().cells,
            i <= n,
            out@.len() == i,
            forall|j: int|
                0 <= j < i ==> match #[trigger] sa.view_col().cells[j] {
                    Some(x) => cast_cell(x, dtype) is Some,
                    None => true,
                },
            forall|j: int|
                0 <= j < i ==> crate::chunked::opt_view(#[trigger] out@[j]) == (
                match sa.view_col().cells[j] {
                    Some(x) => cast_cell(x, dtype),
                    None => None,
                }),
        decreases n - i,
    {
        proof {
            assert(sa.view_col().cells[i as int] == crate::chunked::opt_view(ca@[i as int]));
        }
        let cell: Option<Value> = match &ca[i] {
            Some(x) => {
                match cast_cell_exec(x, dtype) {
                    Some(v) => Some(v),
                    None => {
                        proof {
                            assert(!cast_cells_ok(sa.view_col().cells, dtype));
                        }
                        return Err(PolarsError::TypeMismatch);
                    },
                }
            },
            None => None,
        };
        out.push(cell);
        i += 1;
    }
    let s = crate::frame::Series::new_opt(sa.ca.get_name().as_str(), dtype, &out);
    proof {
        assert(cast_cells_ok(sa.view_col().cells, dtype));
        assert(s.view_col().cells =~= cast_cells_val(sa.view_col().cells, dtype));
        assert(s.view_col() =~= (ColV {
            name: sa.view_col().name,
            dtype,
            cells: cast_cells_val(sa.view_col().cells, dtype),
        }));
    }
    Ok(s)
}

/// Evaluates an expression against a table: one output column of the
/// table's height, or the first failure, exactly as `eval_expr_spec`
/// says.
pub fn eval_expr(e: &Expr, df: &DataFrame) -> (r: Result<crate::frame::Series, PolarsError>)
    requires
        df.wf(),
    ensures
        match r {
            Ok(s) => s.wf() && eval_expr_spec(e@, df@) == Ok::<ColV, PolarsError>(s.view_col()),
            Err(er) => eval_expr_spec(e@, df@) == Err::<ColV, PolarsError>(er),
        },
    decreases *e,
{
    match e {
        Expr::Column(n) => {
            match df.find_col(n) {
                Some(i) => {
                    proof {
                        lemma_df_find(df@, n@);
                    }
                    let src = &df.columns[i];
                    let cells = src.ca.to_opt_vec();
                    let s = crate::frame::Series::new_opt(
                        src.ca.get_name().as_str(),
                        src.dtype,
                        &cells,
                    );
                    proof {
                        assert(s.view_col().cells =~= df@[i as int].cells);
                        assert(s.view_col() =~= df@[i as int]);
                    }
                    Ok(s)
                },
                None => Err(PolarsError::UnknownColumn),
            }
        },
        Expr::Literal(v) => {
            let h = df.height();
            let mut cells: Vec<Option<Value>> = Vec::new();
            let mut i: usize = 0;
            while i < h
                invariant
                    i <= h,
                    cells@.len() == i,
                    forall|j: int|
                        0 <= j < i ==> (#[trigger] cells@[j] matches Some(w) && w@ == v@),
                decreases h - i,
            {
                cells.push(Some(v.dup()));
                i += 1;
            }
            let s = crate::frame::Series::new_opt("literal", v.dtype(), &cells);
            proof {
                assert(s.view_col().cells =~= Seq::new(df_height(df@) as nat, |j: int| Some(v@)));
                assert(s.view_col() =~= (ColV {
                    name: "literal"@,
                    dtype: dtype_of(v@),
                    cells: Seq::new(df_height(df@) as nat, |j: int| Some(v@)),
                }));
            }
            Ok(s)
        },
        Expr::BinaryExpr { left, op, right } => {
            let sa = match eval_expr(left, df) {
                Ok(s) => s,
                Err(er) => {
                    return Err(er);
                },
            };
            let sb = match eval_expr(right, df) {
                Ok(s) => s,
                Err(er) => {
                    return Err(er);
                },
            };
            proof {
                lemma_eval_len(left@, df@);
                lemma_eval_len(right@, df@);
            }
            eval_bin(&sa, &sb, *op)
        },
        Expr::Not(x) => {
            let sa = match eval_expr(x, df) {
                Ok(s) => s,
                Err(er) => {
                    return Err(er);
                },
            };
            eval_not(&sa)
        },
        Expr::Agg { .. } => Err(PolarsError::TypeMismatch),
        Expr::Alias { expr, name } => {
            let sa = match eval_expr(expr, df) {
                Ok(s) => s,
                Err(er) => {
                    return Err(er);
                },
            };
            let cells = sa.ca.to_opt_vec();
            let s = crate::frame::Series::new_opt(name.as_str(), sa.dtype, &cells);
            proof {
                assert(s.view_col().cells =~= sa.view_col().cells);
                assert(s.view_col() =~= (ColV {
                    name: name@,
                    dtype: sa.view_col().dtype,
                    cells: sa.view_col().cells,
                }));
            }
            Ok(s)
        },
        Expr::Cast { expr, dtype } => {
            let sa = match eval_expr(expr, df) {
                Ok(s) => s,
                Err(er) => {
                    return Err(er);
                },
            };
            eval_cast(&sa, *dtype)
        },
    }
}

} // verus!
