//! The logical plan: an immutable tree of operator nodes built by the
//! lazy builder, its static schema, and a human-readable rendering.
use vstd::prelude::*;

use crate::expr::AggKind;
use crate::expr::Expr;
use crate::expr::ExprV;
use crate::expr::Operator;
use crate::expr::expr_out_name;
use crate::expr::expr_view;
use crate::expr::binop_dtype;
use crate::expr::castable;
use crate::frame::ColV;
use crate::frame::DataFrame;
use crate::value::DataType;
use crate::value::ValueV;
use crate::value::dtype_of;

verus! {

/// The kind of an equi-join.
#[derive(Clone, Copy, Debug, PartialEq, Eq, Structural)]
pub enum JoinKind {
    Inner,
    Left,
    Outer,
}

/// A node of the deferred computation. Built once, never mutated; a
/// rewrite builds a new tree.
pub enum LogicalPlan {
    /// A realized source table, optionally narrowed to named columns.
    Scan { df: DataFrame, projection: Option<Vec<String>> },
    /// Keep the rows on which the predicate is true.
    Filter { input: Box<LogicalPlan>, predicate: Expr },
    /// Replace the column set by the given expressions.
    Projection { input: Box<LogicalPlan>, exprs: Vec<Expr> },
    /// Group by key columns and aggregate each group.
    Aggregate { input: Box<LogicalPlan>, keys: Vec<String>, aggs: Vec<Expr> },
    /// Equi-join of two plans on one key expression per side.
    Join {
        left: Box<LogicalPlan>,
        right: Box<LogicalPlan>,
        how: JoinKind,
        left_on: Expr,
        right_on: Expr,
    },
    /// Stable sort by one column, nulls last either way.
    Sort { input: Box<LogicalPlan>, by: String, reverse: bool },
}

/// The mathematical view of a plan.
#[verifier::ext_equal]
pub enum PlanV {
    Scan { df: Seq<ColV>, projection: Option<Seq<Seq<char>>> },
    Filter { input: Box<PlanV>, predicate: ExprV },
    Projection { input: Box<PlanV>, exprs: Seq<ExprV> },
    Aggregate { input: Box<PlanV>, keys: Seq<Seq<char>>, aggs: Seq<ExprV> },
    Join { left: Box<PlanV>, right: Box<PlanV>, how: JoinKind, left_on: ExprV, right_on: ExprV },
    Sort { input: Box<PlanV>, by: Seq<char>, reverse: bool },
}

pub open spec fn names_view(s: Seq<String>) -> Seq<Seq<char>> {
    s.map_values(|x: String| x@)
}

pub open spec fn exprs_view(s: Seq<Expr>) -> Seq<ExprV> {
    s.map_values(|e: Expr| expr_view(e))
}

pub open spec fn plan_view(p: LogicalPlan) -> PlanV
    decreases p,
{
    match p {
        LogicalPlan::Scan { df, projection } => PlanV::Scan {
            df: df@,
            projection: match projection {
                Some(ns) => Some(names_view(ns@)),
                None => None,
            },
        },
        LogicalPlan::Filter { input, predicate } => PlanV::Filter {
            input: Box::new(plan_view(*input)),
            predicate: predicate@,
        },
        LogicalPlan::Projection { input, exprs } => PlanV::Projection {
            input: Box::new(plan_view(*input)),
            exprs: exprs_view(exprs@),
        },
        LogicalPlan::Aggregate { input, keys, aggs } => PlanV::Aggregate {
            input: Box::new(plan_view(*input)),
            keys: names_view(keys@),
            aggs: exprs_view(aggs@),
        },
        LogicalPlan::Join { left, right, how, left_on, right_on } => PlanV::Join {
            left: Box::new(plan_view(*left)),
            right: Box::new(plan_view(*right)),
            how,
            left_on: left_on@,
            right_on: right_on@,
        },
        LogicalPlan::Sort { input, by, reverse } => PlanV::Sort {
            input: Box::new(plan_view(*input)),
            by: by@,
            reverse,
        },
    }
}

impl View for LogicalPlan {
    type V = PlanV;

    open spec fn view(&self) -> PlanV {
        plan_view(*self)
    }
}

/// Every source table in the plan is well formed.
pub open spec fn plan_exec_wf(p: LogicalPlan) -> bool
    decreases p,
{
    match p {
        LogicalPlan::Scan { df, .. } => df.wf(),
        LogicalPlan::Filter { input, .. } => plan_exec_wf(*input),
        LogicalPlan::Projection { input, .. } => plan_exec_wf(*input),
        LogicalPlan::Aggregate { input, .. } => plan_exec_wf(*input),
        LogicalPlan::Join { left, right, .. } => plan_exec_wf(*left) && plan_exec_wf(*right),
        LogicalPlan::Sort { input, .. } => plan_exec_wf(*input),
    }
}

/// One name-and-type pair of a static schema.
#[verifier::ext_equal]
pub struct FieldV {
    pub name: Seq<char>,
    pub dtype: DataType,
}

pub open spec fn schema_of_df(df: Seq<ColV>) -> Seq<FieldV> {
    df.map_values(|c: ColV| FieldV { name: c.name, dtype: c.dtype })
}

pub open spec fn sch_names(sch: Seq<FieldV>) -> Seq<Seq<char>> {
    sch.map_values(|f: FieldV| f.name)
}

/// The first field of this name, if any.
pub open spec fn schema_find(sch: Seq<FieldV>, name: Seq<char>) -> Option<int>
    decreases sch.len(),
{
    if sch.len() == 0 {
        None
    } else if sch[0].name == name {
        Some(0)
    } else {
        match schema_find(sch.drop_first(), name) {
            Some(i) => Some(i + 1),
            None => None,
        }
    }
}

pub proof fn lemma_schema_find(sch: Seq<FieldV>, name: Seq<char>)
    ensures
        match schema_find(sch, name) {
            Some(i) => 0 <= i < sch.len() && sch[i].name == name && forall|j: int|
                0 <= j < i ==> (#[trigger] sch[j]).name != name,
            None => forall|j: int| 0 <= j < sch.len() ==> (#[trigger] sch[j]).name != name,
        },
    decreases sch.len(),
{
    if sch.len() != 0 && sch[0].name != name {
        lemma_schema_find(sch.drop_first(), name);
        assert forall|j: int| 1 <= j < sch.len() implies sch[j] == sch.drop_first()[j - 1] by {}
    }
}

/// The static type of an expression under a schema, or `None` where it
/// cannot type.
pub open spec fn expr_dtype(e: ExprV, sch: Seq<FieldV>) -> Option<DataType>
    decreases e,
{
    match e {
        ExprV::Column(n) => match schema_find(sch, n) {
            Some(i) => Some(sch[i].dtype),
            None => None,
        },
        ExprV::Literal(v) => Some(dtype_of(v)),
        ExprV::BinaryExpr { left, op, right } => match (
            expr_dtype(*left, sch),
            expr_dtype(*right, sch),
        ) {
            (Some(a), Some(b)) => binop_dtype(op, a, b),
            _ => None,
        },
        ExprV::Not(x) => match expr_dtype(*x, sch) {
            Some(DataType::Boolean) => Some(DataType::Boolean),
            _ => None,
        },
        ExprV::Agg { .. } => None,
        ExprV::Alias { expr, .. } => expr_dtype(*expr, sch),
        ExprV::Cast { expr, dtype } => match expr_dtype(*expr, sch) {
            Some(f) => if castable(f, dtype) {
                Some(dtype)
            } else {
                None
            },
            None => None,
        },
    }
}

/// The static type of one aggregation entry: an aggregation (under any
/// aliases) of a typable operand yields a 64-bit integer.
pub open spec fn agg_expr_dtype(e: ExprV, sch: Seq<FieldV>) -> Option<DataType>
    decreases e,
{
    match e {
        ExprV::Agg { kind, expr } => if expr_dtype(*expr, sch) is Some {
            Some(DataType::Int64)
        } else {
            None
        },
        ExprV::Alias { expr, .. } => agg_expr_dtype(*expr, sch),
        _ => None,
    }
}

/// The fields of the named columns, in the given order; `None` if one
/// is absent.
pub open spec fn select_fields(sch: Seq<FieldV>, names: Seq<Seq<char>>) -> Option<Seq<FieldV>>
    decreases names.len(),
{
    if names.len() == 0 {
        Some(Seq::empty())
    } else {
        match (schema_find(sch, names[0]), select_fields(sch, names.drop_first())) {
            (Some(i), Some(rest)) => Some(seq![sch[i]] + rest),
            _ => None,
        }
    }
}

/// The fields whose names are among `names`, kept in schema order.
pub open spec fn project_fields(sch: Seq<FieldV>, names: Seq<Seq<char>>) -> Seq<FieldV>
    decreases sch.len(),
{
    if sch.len() == 0 {
        Seq::empty()
    } else {
        (if names.contains(sch[0].name) {
            seq![sch[0]]
        } else {
            Seq::<FieldV>::empty()
        }) + project_fields(sch.drop_first(), names)
    }
}

/// The fields a projection's expressions produce, or `None` where one
/// does not type.
pub open spec fn exprs_fields(exprs: Seq<ExprV>, sch: Seq<FieldV>) -> Option<Seq<FieldV>>
    decreases exprs.len(),
{
    if exprs.len() == 0 {
        Some(Seq::empty())
    } else {
        match (expr_dtype(exprs[0], sch), exprs_fields(exprs.drop_first(), sch)) {
            (Some(d), Some(rest)) => Some(
                seq![FieldV { name: expr_out_name(exprs[0]), dtype: d }] + rest,
            ),
            _ => None,
        }
    }
}

/// The fields the aggregation entries produce.
pub open spec fn agg_fields(aggs: Seq<ExprV>, sch: Seq<FieldV>) -> Option<Seq<FieldV>>
    decreases aggs.len(),
{
    if aggs.len() == 0 {
        Some(Seq::empty())
    } else {
        match (agg_expr_dtype(aggs[0], sch), agg_fields(aggs.drop_first(), sch)) {
            (Some(d), Some(rest)) => Some(
                seq![FieldV { name: expr_out_name(aggs[0]), dtype: d }] + rest,
            ),
            _ => None,
        }
    }
}

/// The right-hand fields of a join, a clashing name carrying the
/// suffix for the right side.
pub open spec fn join_right_fields(l: Seq<FieldV>, r: Seq<FieldV>) -> Seq<FieldV> {
    r.map_values(
        |f: FieldV|
            if schema_find(l, f.name) is Some {
                FieldV { name: f.name + "_right"@, dtype: f.dtype }
            } else {
                f
            },
    )
}

/// The static schema of a plan's output: the column names and types a
/// successful execution yields, or `None` where the plan cannot type.
pub open spec fn plan_schema(p: PlanV) -> Option<Seq<FieldV>>
    decreases p,
{
    match p {
        PlanV::Scan { df, projection } => match projection {
            None => Some(schema_of_df(df)),
            Some(ns) => Some(project_fields(schema_of_df(df), ns)),
        },
        PlanV::Filter { input, .. } => plan_schema(*input),
        PlanV::Projection { input, exprs } => match plan_schema(*input) {
            Some(sch) => exprs_fields(exprs, sch),
            None => None,
        },
        PlanV::Aggregate { input, keys, aggs } => match plan_schema(*input) {
            Some(sch) => match (select_fields(sch, keys), agg_fields(aggs, sch)) {
                (Some(kf), Some(af)) => Some(kf + af),
                _ => None,
            },
            None => None,
        },
        PlanV::Join { left, right, .. } => match (plan_schema(*left), plan_schema(*right)) {
            (Some(ls), Some(rs)) => Some(ls + join_right_fields(ls, rs)),
            _ => None,
        },
        PlanV::Sort { input, .. } => plan_schema(*input),
    }
}


/// The rendering of a binary operator.
pub open spec fn op_fmt(op: Operator) -> Seq<char> {
    match op {
        Operator::Plus => " + "@,
        Operator::Minus => " - "@,
        Operator::Eq => " == "@,
        Operator::Lt => " < "@,
        Operator::Gt => " > "@,
        Operator::And => " AND "@,
        Operator::Or => " OR "@,
    }
}

/// The rendering of a physical type.
pub open spec fn dtype_fmt(d: DataType) -> Seq<char> {
    match d {
        DataType::Int32 => "i32"@,
        DataType::Int64 => "i64"@,
        DataType::Boolean => "bool"@,
        DataType::Utf8 => "str"@,
    }
}

/// The rendering of an expression.
pub open spec fn expr_fmt(e: ExprV) -> Seq<char>
    decreases e,
{
    match e {
        ExprV::Column(n) => "col("@ + n + ")"@,
        ExprV::Literal(v) => "lit("@ + dtype_fmt(dtype_of(v)) + ")"@,
        ExprV::BinaryExpr { left, op, right } => "("@ + expr_fmt(*left) + op_fmt(op) + expr_fmt(
            *right,
        ) + ")"@,
        ExprV::Not(x) => "not("@ + expr_fmt(*x) + ")"@,
        ExprV::Agg { kind, expr } => (match kind {
            AggKind::Sum => "sum("@,
            AggKind::Count => "count("@,
        }) + expr_fmt(*expr) + ")"@,
        ExprV::Alias { expr, name } => expr_fmt(*expr) + " AS "@ + name,
        ExprV::Cast { expr, dtype } => "cast("@ + expr_fmt(*expr) + " AS "@ + dtype_fmt(dtype)
            + ")"@,
    }
}

/// A comma-separated rendering of expressions.
pub open spec fn exprs_fmt(s: Seq<ExprV>) -> Seq<char>
    decreases s.len(),
{
    if s.len() == 0 {
        Seq::empty()
    } else {
        exprs_fmt(s.drop_last()) + (if s.len() == 1 {
            Seq::<char>::empty()
        } else {
            ", "@
        }) + expr_fmt(s.last())
    }
}

/// A comma-separated rendering of names.
pub open spec fn names_fmt(s: Seq<Seq<char>>) -> Seq<char>
    decreases s.len(),
{
    if s.len() == 0 {
        Seq::empty()
    } else {
        names_fmt(s.drop_last()) + (if s.len() == 1 {
            Seq::<char>::empty()
        } else {
            ", "@
        }) + s.last()
    }
}

/// The rendering of a join kind.
pub open spec fn join_fmt(how: JoinKind) -> Seq<char> {
    match how {
        JoinKind::Inner => "INNER"@,
        JoinKind::Left => "LEFT"@,
        JoinKind::Outer => "OUTER"@,
    }
}

/// The rendering of a whole plan, leaf inside brackets.
pub open spec fn plan_fmt(p: PlanV) -> Seq<char>
    decreases p,
{
    match p {
        PlanV::Scan { df, projection } => match projection {
            None => "SCAN TABLE"@,
            Some(ns) => "SCAN TABLE PROJECT "@ + names_fmt(ns),
        },
        PlanV::Filter { input, predicate } => "FILTER "@ + expr_fmt(predicate) + " FROM ["@
            + plan_fmt(*input) + "]"@,
        PlanV::Projection { input, exprs } => "SELECT "@ + exprs_fmt(exprs) + " FROM ["@
            + plan_fmt(*input) + "]"@,
        PlanV::Aggregate { input, keys, aggs } => "AGGREGATE "@ + exprs_fmt(aggs) + " BY "@
            + names_fmt(keys) + " FROM ["@ + plan_fmt(*input) + "]"@,
        PlanV::Join { left, right, how, left_on, right_on } => join_fmt(how) + " JOIN ["@
            + plan_fmt(*left) + "] WITH ["@ + plan_fmt(*right) + "] ON "@ + expr_fmt(left_on)
            + " = "@ + expr_fmt(right_on),
        PlanV::Sort { input, by, reverse } => "SORT "@ + by + (if reverse {
            " DESC"@
        } else {
            " ASC"@
        }) + " FROM ["@ + plan_fmt(*input) + "]"@,
    }
}

/// Renders one expression as `expr_fmt` says.
pub fn fmt_expr(e: &Expr) -> (r: String)
    ensures
        r@ == expr_fmt(e@),
    decreases *e,
{
    let mut s = String::new();
    match e {
        Expr::Column(n) => {
            s.append("col(");
            s.append(n.as_str());
            s.append(")");
        },
        Expr::Literal(v) => {
            s.append("lit(");
            match v.dtype() {
                DataType::Int32 => s.append("i32"),
                DataType::Int64 => s.append("i64"),
                DataType::Boolean => s.append("bool"),
                DataType::Utf8 => s.append("str"),
            }
            s.append(")");
        },
        Expr::BinaryExpr { left, op, right } => {
            s.append("(");
            let ls = fmt_expr(left);
            s.append(ls.as_str());
            match op {
                Operator::Plus => s.append(" + "),
                Operator::Minus => s.append(" - "),
                Operator::Eq => s.append(" == "),
                Operator::Lt => s.append(" < "),
                Operator::Gt => s.append(" > "),
                Operator::And => s.append(" AND "),
                Operator::Or => s.append(" OR "),
            }
            let rs = fmt_expr(right);
            s.append(rs.as_str());
            s.append(")");
        },
        Expr::Not(x) => {
            s.append("not(");
            let xs = fmt_expr(x);
            s.append(xs.as_str());
            s.append(")");
        },
        Expr::Agg { kind, expr } => {
            match kind {
                AggKind::Sum => s.append("sum("),
                AggKind::Count => s.append("count("),
            }
            let xs = fmt_expr(expr);
            s.append(xs.as_str());
            s.append(")");
        },
        Expr::Alias { expr, name } => {
            let xs = fmt_expr(expr);
            s.append(xs.as_str());
            s.append(" AS ");
            s.append(name.as_str());
        },
        Expr::Cast { expr, dtype } => {
            s.append("cast(");
            let xs = fmt_expr(expr);
            s.append(xs.as_str());
            s.append(" AS ");
            match dtype {
                DataType::Int32 => s.append("i32"),
                DataType::Int64 => s.append("i64"),
                DataType::Boolean => s.append("bool"),
                DataType::Utf8 => s.append("str"),
            }
            s.append(")");
        },
    }
    s
}

/// Renders a run of expressions, comma separated.
fn fmt_exprs(es: &Vec<Expr>) -> (r: String)
    ensures
        r@ == exprs_fmt(exprs_view(es@)),
{
    let mut s = String::new();
    let n = es.len();
    let mut i: usize = 0;
    while i < n
        invariant
            n == es@.len(),
            i <= n,
            s@ == exprs_fmt(exprs_view(es@.take(i as int))),
        decreases n - i,
    {
        if i > 0 {
            s.append(", ");
        }
        let xs = fmt_expr(&es[i]);
        s.append(xs.as_str());
        proof {
            assert(exprs_view(es@.take(i + 1)).drop_last() =~= exprs_view(es@.take(i as int)));
            assert(exprs_view(es@.take(i + 1)).last() == expr_view(es@[i as int]));
        }
        i += 1;
    }
    proof {
        assert(es@.take(n as int) =~= es@);
        assert(exprs_view(es@.take(n as int)) =~= exprs_view(es@));
    }
    s
}

/// Renders a run of names, comma separated.
fn fmt_names(ns: &Vec<String>) -> (r: String)
    ensures
        r@ == names_fmt(names_view(ns@)),
{
    let mut s = String::new();
    let n = ns.len();
    let mut i: usize = 0;
    while i < n
        invariant
            n == ns@.len(),
            i <= n,
            s@ == names_fmt(names_view(ns@.take(i as int))),
        decreases n - i,
    {
        if i > 0 {
            s.append(", ");
        }
        s.append(ns[i].as_str());
        proof {
            assert(names_view(ns@.take(i + 1)).drop_last() =~= names_view(ns@.take(i as int)));
            assert(names_view(ns@.take(i + 1)).last() == ns@[i as int]@);
        }
        i += 1;
    }
    proof {
        assert(ns@.take(n as int) =~= ns@);
        assert(names_view(ns@.take(n as int)) =~= names_view(ns@));
    }
    s
}

/// Renders a whole plan as `plan_fmt` says.
pub fn fmt_plan(p: &LogicalPlan) -> (r: String)
    ensures
        r@ == plan_fmt(p@),
    decreases *p,
{
    let mut s = String::new();
    match p {
        LogicalPlan::Scan { df, projection } => {
            match projection {
                Some(ns) => {
                    s.append("SCAN TABLE PROJECT ");
                    let nstr = fmt_names(ns);
                    s.append(nstr.as_str());
                },
                None => {
                    s.append("SCAN TABLE");
                },
            }
        },
        LogicalPlan::Filter { input, predicate } => {
            s.append("FILTER ");
            let es = fmt_expr(predicate);
            s.append(es.as_str());
            s.append(" FROM [");
            let ins = fmt_plan(input);
            s.append(ins.as_str());
            s.append("]");
        },
        LogicalPlan::Projection { input, exprs } => {
            s.append("SELECT ");
            let es = fmt_exprs(exprs);
            s.append(es.as_str());
            s.append(" FROM [");
            let ins = fmt_plan(input);
            s.append(ins.as_str());
            s.append("]");
        },
        LogicalPlan::Aggregate { input, keys, aggs } => {
            s.append("AGGREGATE ");
            let es = fmt_exprs(aggs);
            s.append(es.as_str());
            s.append(" BY ");
            let ks = fmt_names(keys);
            s.append(ks.as_str());
            s.append(" FROM [");
            let ins = fmt_plan(input);
            s.append(ins.as_str());
            s.append("]");
        },
        LogicalPlan::Join { left, right, how, left_on, right_on } => {
            match how {
                JoinKind::Inner => s.append("INNER"),
                JoinKind::Left => s.append("LEFT"),
                JoinKind::Outer => s.append("OUTER"),
            }
            s.append(" JOIN [");
            let lstr = fmt_plan(left);
            s.append(lstr.as_str());
            s.append("] WITH [");
            let rstr = fmt_plan(right);
            s.append(rstr.as_str());
            s.append("] ON ");
            let lo = fmt_expr(left_on);
            s.append(lo.as_str());
            s.append(" = ");
            let ro = fmt_expr(right_on);
            s.append(ro.as_str());
        },
        LogicalPlan::Sort { input, by, reverse } => {
            s.append("SORT ");
            s.append(by.as_str());
            if *reverse {
                s.append(" DESC");
            } else {
                s.append(" ASC");
            }
            s.append(" FROM [");
            let ins = fmt_plan(input);
            s.append(ins.as_str());
            s.append("]");
        },
    }
    s
}

} // verus!
