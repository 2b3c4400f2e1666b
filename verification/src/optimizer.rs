//! The optimizer: three independently toggleable, semantics-preserving
//! plan rewrites — type coercion, predicate pushdown and projection
//! pushdown — each proved idempotent and schema-preserving.
use vstd::prelude::*;

use crate::expr::Expr;
use crate::expr::ExprV;
use crate::expr::binop_dtype;
use crate::expr::binop_dtype_check;
use crate::expr::expr_out_name;
use crate::expr::supertype;
use crate::plan::FieldV;
use crate::plan::LogicalPlan;
use crate::plan::JoinKind;
use crate::plan::PlanV;
use crate::plan::agg_expr_dtype;
use crate::plan::agg_fields;
use crate::plan::expr_dtype;
use crate::plan::exprs_fields;
use crate::plan::exprs_view;
use crate::plan::join_right_fields;
use crate::plan::lemma_schema_find;
use crate::plan::names_view;
use crate::plan::plan_schema;
use crate::plan::project_fields;
use crate::plan::schema_find;
use crate::plan::schema_of_df;
use crate::plan::sch_names;
use crate::plan::select_fields;
use crate::value::DataType;

verus! {

// ---------------------------------------------------------------------
// An executable schema, mirroring the static `plan_schema`.
// ---------------------------------------------------------------------

/// One executable schema entry.
pub struct Field {
    pub name: String,
    pub dtype: DataType,
}

pub open spec fn fields_view(s: Seq<Field>) -> Seq<FieldV> {
    s.map_values(|f: Field| FieldV { name: f.name@, dtype: f.dtype })
}

fn schema_find_check(sch: &Vec<Field>, name: &String) -> (r: Option<usize>)
    ensures
        match r {
            Some(i) => schema_find(fields_view(sch@), name@) == Some(i as int),
            None => schema_find(fields_view(sch@), name@) is None,
        },
{
    proof {
        lemma_schema_find(fields_view(sch@), name@);
    }
    let n = sch.len();
    let mut i: usize = 0;
    while i < n
        invariant
            n == sch@.len(),
            i <= n,
            forall|j: int| 0 <= j < i ==> (#[trigger] fields_view(sch@)[j]).name != name@,
        decreases n - i,
    {
        if sch[i].name == *name {
            proof {
                assert(sch[i as int].name@ == name@);
                assert(fields_view(sch@)[i as int].name == name@);
                lemma_schema_find(fields_view(sch@), name@);
                assert(match schema_find(fields_view(sch@), name@) {
                    Some(k) => k == i as int,
                    None => false,
                });
            }
            return Some(i);
        }
        proof {
            assert(fields_view(sch@)[i as int].name == sch@[i as int].name@);
        }
        i += 1;
    }
    None
}

/// Decides the static type of an expression under a schema.
pub fn expr_dtype_check(e: &Expr, sch: &Vec<Field>) -> (r: Option<DataType>)
    ensures
        r == expr_dtype(e@, fields_view(sch@)),
    decreases *e,
{
    match e {
        Expr::Column(n) => match schema_find_check(sch, n) {
            Some(i) => {
                proof {
                    lemma_schema_find(fields_view(sch@), n@);
                }
                Some(sch[i].dtype)
            },
            None => None,
        },
        Expr::Literal(v) => Some(v.dtype()),
        Expr::BinaryExpr { left, op, right } => {
            match (expr_dtype_check(left, sch), expr_dtype_check(right, sch)) {
                (Some(a), Some(b)) => binop_dtype_check(*op, a, b),
                _ => None,
            }
        },
        Expr::Not(x) => match expr_dtype_check(x, sch) {
            Some(DataType::Boolean) => Some(DataType::Boolean),
            _ => None,
        },
        Expr::Agg { .. } => None,
        Expr::Alias { expr, .. } => expr_dtype_check(expr, sch),
        Expr::Cast { expr, dtype } => match expr_dtype_check(expr, sch) {
            Some(f) => {
                if f == *dtype || ((f == DataType::Int32 || f == DataType::Int64) && (*dtype
                    == DataType::Int32 || *dtype == DataType::Int64)) {
                    Some(*dtype)
                } else {
                    None
                }
            },
            None => None,
        },
    }
}

// ---------------------------------------------------------------------
// Type coercion: insert explicit casts where an operator would mix the
// two integer widths, so execution sees no implicit width ambiguity.
// ---------------------------------------------------------------------

/// One side wrapped in a cast where its type differs from the common
/// type of the operator's operands.
pub open spec fn coerce_side(e: ExprV, d: DataType, st: DataType) -> ExprV {
    if d == st {
        e
    } else {
        ExprV::Cast { expr: Box::new(e), dtype: st }
    }
}

/// The coercion rewrite of one expression under a schema.
pub open spec fn coerce_expr(e: ExprV, sch: Seq<FieldV>) -> ExprV
    decreases e,
{
    match e {
        ExprV::Column(_) => e,
        ExprV::Literal(_) => e,
        ExprV::BinaryExpr { left, op, right } => {
            let l = coerce_expr(*left, sch);
            let r = coerce_expr(*right, sch);
            match (expr_dtype(l, sch), expr_dtype(r, sch)) {
                (Some(a), Some(b)) => if a != b {
                    match supertype(a, b) {
                        Some(st) => ExprV::BinaryExpr {
                            left: Box::new(coerce_side(l, a, st)),
                            op,
                            right: Box::new(coerce_side(r, b, st)),
                        },
                        None => ExprV::BinaryExpr { left: Box::new(l), op, right: Box::new(r) },
                    }
                } else {
                    ExprV::BinaryExpr { left: Box::new(l), op, right: Box::new(r) }
                },
                _ => ExprV::BinaryExpr { left: Box::new(l), op, right: Box::new(r) },
            }
        },
        ExprV::Not(x) => ExprV::Not(Box::new(coerce_expr(*x, sch))),
        ExprV::Agg { kind, expr } => ExprV::Agg { kind, expr: Box::new(coerce_expr(*expr, sch)) },
        ExprV::Alias { expr, name } => ExprV::Alias {
            expr: Box::new(coerce_expr(*expr, sch)),
            name,
        },
        ExprV::Cast { expr, dtype } => ExprV::Cast {
            expr: Box::new(coerce_expr(*expr, sch)),
            dtype,
        },
    }
}

pub open spec fn coerce_exprs(s: Seq<ExprV>, sch: Seq<FieldV>) -> Seq<ExprV> {
    s.map_values(|e: ExprV| coerce_expr(e, sch))
}

/// The coercion pass over a whole plan; where a subtree cannot type,
/// its expressions stand unchanged (the rewrite is best-effort).
pub open spec fn coerce_plan(p: PlanV) -> PlanV
    decreases p,
{
    match p {
        PlanV::Scan { .. } => p,
        PlanV::Filter { input, predicate } => PlanV::Filter {
            input: Box::new(coerce_plan(*input)),
            predicate: match plan_schema(*input) {
                Some(sch) => coerce_expr(predicate, sch),
                None => predicate,
            },
        },
        PlanV::Projection { input, exprs } => PlanV::Projection {
            input: Box::new(coerce_plan(*input)),
            exprs: match plan_schema(*input) {
                Some(sch) => coerce_exprs(exprs, sch),
                None => exprs,
            },
        },
        PlanV::Aggregate { input, keys, aggs } => PlanV::Aggregate {
            input: Box::new(coerce_plan(*input)),
            keys,
            aggs: match plan_schema(*input) {
                Some(sch) => coerce_exprs(aggs, sch),
                None => aggs,
            },
        },
        PlanV::Join { left, right, how, left_on, right_on } => PlanV::Join {
            left: Box::new(coerce_plan(*left)),
            right: Box::new(coerce_plan(*right)),
            how,
            left_on: match plan_schema(*left) {
                Some(sch) => coerce_expr(left_on, sch),
                None => left_on,
            },
            right_on: match plan_schema(*right) {
                Some(sch) => coerce_expr(right_on, sch),
                None => right_on,
            },
        },
        PlanV::Sort { input, by, reverse } => PlanV::Sort {
            input: Box::new(coerce_plan(*input)),
            by,
            reverse,
        },
    }
}

/// Coercion leaves the static type of an expression unchanged.
pub proof fn lemma_coerce_expr_dtype(e: ExprV, sch: Seq<FieldV>)
    ensures
        expr_dtype(coerce_expr(e, sch), sch) == expr_dtype(e, sch),
    decreases e,
{
    match e {
        ExprV::BinaryExpr { left, op, right } => {
            lemma_coerce_expr_dtype(*left, sch);
            lemma_coerce_expr_dtype(*right, sch);
            let l = coerce_expr(*left, sch);
            let r = coerce_expr(*right, sch);
            match (expr_dtype(l, sch), expr_dtype(r, sch)) {
                (Some(a), Some(b)) => {
                    if a != b {
                        match supertype(a, b) {
                            Some(st) => {
                                assert(expr_dtype(coerce_side(l, a, st), sch) == Some(st));
                                assert(expr_dtype(coerce_side(r, b, st), sch) == Some(st));
                                assert(binop_dtype(op, st, st) == binop_dtype(op, a, b));
                            },
                            None => {},
                        }
                    }
                },
                _ => {},
            }
        },
        ExprV::Not(x) => {
            lemma_coerce_expr_dtype(*x, sch);
        },
        ExprV::Alias { expr, .. } => {
            lemma_coerce_expr_dtype(*expr, sch);
        },
        ExprV::Cast { expr, .. } => {
            lemma_coerce_expr_dtype(*expr, sch);
        },
        _ => {},
    }
}

/// Coercion leaves the output name of an expression unchanged.
pub proof fn lemma_coerce_expr_name(e: ExprV, sch: Seq<FieldV>)
    ensures
        expr_out_name(coerce_expr(e, sch)) == expr_out_name(e),
    decreases e,
{
    match e {
        ExprV::BinaryExpr { left, op, right } => {
            lemma_coerce_expr_name(*left, sch);
            lemma_coerce_expr_dtype(*left, sch);
            lemma_coerce_expr_dtype(*right, sch);
            let l = coerce_expr(*left, sch);
            let r = coerce_expr(*right, sch);
            match (expr_dtype(l, sch), expr_dtype(r, sch)) {
                (Some(a), Some(b)) => {
                    if a != b {
                        match supertype(a, b) {
                            Some(st) => {
                                assert(expr_out_name(coerce_side(l, a, st)) == expr_out_name(l));
                            },
                            None => {},
                        }
                    }
                },
                _ => {},
            }
        },
        ExprV::Not(x) => {
            lemma_coerce_expr_name(*x, sch);
        },
        ExprV::Agg { expr, .. } => {
            lemma_coerce_expr_name(*expr, sch);
        },
        ExprV::Alias { .. } => {},
        ExprV::Cast { expr, .. } => {
            lemma_coerce_expr_name(*expr, sch);
        },
        _ => {},
    }
}

/// Coercing an already coerced expression changes nothing.
pub proof fn lemma_coerce_expr_idem(e: ExprV, sch: Seq<FieldV>)
    ensures
        coerce_expr(coerce_expr(e, sch), sch) == coerce_expr(e, sch),
    decreases e,
{
    match e {
        ExprV::BinaryExpr { left, op, right } => {
            lemma_coerce_expr_idem(*left, sch);
            lemma_coerce_expr_idem(*right, sch);
            lemma_coerce_expr_dtype(*left, sch);
            lemma_coerce_expr_dtype(*right, sch);
            let l = coerce_expr(*left, sch);
            let r = coerce_expr(*right, sch);
            match (expr_dtype(l, sch), expr_dtype(r, sch)) {
                (Some(a), Some(b)) => {
                    if a != b {
                        match supertype(a, b) {
                            Some(st) => {
                                assert(coerce_expr(coerce_side(l, a, st), sch) == coerce_side(
                                    l,
                                    a,
                                    st,
                                ));
                                assert(coerce_expr(coerce_side(r, b, st), sch) == coerce_side(
                                    r,
                                    b,
                                    st,
                                ));
                                assert(expr_dtype(coerce_side(l, a, st), sch) == Some(st));
                                assert(expr_dtype(coerce_side(r, b, st), sch) == Some(st));
                            },
                            None => {},
                        }
                    }
                },
                _ => {},
            }
        },
        ExprV::Not(x) => {
            lemma_coerce_expr_idem(*x, sch);
        },
        ExprV::Agg { expr, .. } => {
            lemma_coerce_expr_idem(*expr, sch);
        },
        ExprV::Alias { expr, .. } => {
            lemma_coerce_expr_idem(*expr, sch);
        },
        ExprV::Cast { expr, .. } => {
            lemma_coerce_expr_idem(*expr, sch);
        },
        _ => {},
    }
}

/// Coercion of an aggregation entry keeps its static type.
pub proof fn lemma_coerce_agg_dtype(e: ExprV, sch: Seq<FieldV>)
    ensures
        agg_expr_dtype(coerce_expr(e, sch), sch) == agg_expr_dtype(e, sch),
    decreases e,
{
    match e {
        ExprV::Agg { expr, .. } => {
            lemma_coerce_expr_dtype(*expr, sch);
        },
        ExprV::Alias { expr, .. } => {
            lemma_coerce_agg_dtype(*expr, sch);
        },
        _ => {},
    }
}

pub proof fn lemma_coerce_exprs_fields(s: Seq<ExprV>, sch: Seq<FieldV>)
    ensures
        exprs_fields(coerce_exprs(s, sch), sch) == exprs_fields(s, sch),
    decreases s.len(),
{
    if s.len() != 0 {
        lemma_coerce_expr_dtype(s[0], sch);
        lemma_coerce_expr_name(s[0], sch);
        assert(coerce_exprs(s, sch).drop_first() =~= coerce_exprs(s.drop_first(), sch));
        lemma_coerce_exprs_fields(s.drop_first(), sch);
        assert(coerce_exprs(s, sch)[0] == coerce_expr(s[0], sch));
    } else {
        assert(coerce_exprs(s, sch).len() == 0);
    }
}

pub proof fn lemma_coerce_agg_fields(s: Seq<ExprV>, sch: Seq<FieldV>)
    ensures
        agg_fields(coerce_exprs(s, sch), sch) == agg_fields(s, sch),
    decreases s.len(),
{
    if s.len() != 0 {
        lemma_coerce_agg_dtype(s[0], sch);
        lemma_coerce_expr_name(s[0], sch);
        assert(coerce_exprs(s, sch).drop_first() =~= coerce_exprs(s.drop_first(), sch));
        lemma_coerce_agg_fields(s.drop_first(), sch);
        assert(coerce_exprs(s, sch)[0] == coerce_expr(s[0], sch));
    } else {
        assert(coerce_exprs(s, sch).len() == 0);
    }
}

/// Schema preservation: the coercion pass leaves the plan's output
/// schema — its column names and types — unchanged.
pub proof fn lemma_coerce_plan_schema(p: PlanV)
    ensures
        plan_schema(coerce_plan(p)) == plan_schema(p),
    decreases p,
{
    match p {
        PlanV::Scan { .. } => {},
        PlanV::Filter { input, .. } => {
            lemma_coerce_plan_schema(*input);
        },
        PlanV::Projection { input, exprs } => {
            lemma_coerce_plan_schema(*input);
            match plan_schema(*input) {
                Some(sch) => {
                    lemma_coerce_exprs_fields(exprs, sch);
                },
                None => {},
            }
        },
        PlanV::Aggregate { input, keys, aggs } => {
            lemma_coerce_plan_schema(*input);
            match plan_schema(*input) {
                Some(sch) => {
                    lemma_coerce_agg_fields(aggs, sch);
                },
                None => {},
            }
        },
        PlanV::Join { left, right, .. } => {
            lemma_coerce_plan_schema(*left);
            lemma_coerce_plan_schema(*right);
        },
        PlanV::Sort { input, .. } => {
            lemma_coerce_plan_schema(*input);
        },
    }
}

/// Idempotence: running the coercion pass twice equals running it once.
pub proof fn lemma_coerce_plan_idem(p: PlanV)
    ensures
        coerce_plan(coerce_plan(p)) == coerce_plan(p),
    decreases p,
{
    match p {
        PlanV::Scan { .. } => {},
        PlanV::Filter { input, predicate } => {
            lemma_coerce_plan_idem(*input);
            lemma_coerce_plan_schema(*input);
            match plan_schema(*input) {
                Some(sch) => {
                    lemma_coerce_expr_idem(predicate, sch);
                },
                None => {},
            }
        },
        PlanV::Projection { input, exprs } => {
            lemma_coerce_plan_idem(*input);
            lemma_coerce_plan_schema(*input);
            match plan_schema(*input) {
                Some(sch) => {
                    lemma_coerce_exprs_idem(exprs, sch);
                },
                None => {},
            }
        },
        PlanV::Aggregate { input, keys, aggs } => {
            lemma_coerce_plan_idem(*input);
            lemma_coerce_plan_schema(*input);
            match plan_schema(*input) {
                Some(sch) => {
                    lemma_coerce_exprs_idem(aggs, sch);
                },
                None => {},
            }
        },
        PlanV::Join { left, right, how, left_on, right_on } => {
            lemma_coerce_plan_idem(*left);
            lemma_coerce_plan_idem(*right);
            lemma_coerce_plan_schema(*left);
            lemma_coerce_plan_schema(*right);
            match plan_schema(*left) {
                Some(sch) => {
                    lemma_coerce_expr_idem(left_on, sch);
                },
                None => {},
            }
            match plan_schema(*right) {
                Some(sch) => {
                    lemma_coerce_expr_idem(right_on, sch);
                },
                None => {},
            }
        },
        PlanV::Sort { input, .. } => {
            lemma_coerce_plan_idem(*input);
        },
    }
}

pub proof fn lemma_coerce_exprs_idem(s: Seq<ExprV>, sch: Seq<FieldV>)
    ensures
        coerce_exprs(coerce_exprs(s, sch), sch) == coerce_exprs(s, sch),
{
    assert forall|i: int| 0 <= i < s.len() implies #[trigger] coerce_expr(
        coerce_exprs(s, sch)[i],
        sch,
    ) == coerce_exprs(s, sch)[i] by {
        lemma_coerce_expr_idem(s[i], sch);
    }
    assert(coerce_exprs(coerce_exprs(s, sch), sch) =~= coerce_exprs(s, sch));
}

/// Rewrites one expression as `coerce_expr` says.
fn coerce_expr_exec(e: &Expr, sch: &Vec<Field>) -> (r: Expr)
    ensures
        r@ == coerce_expr(e@, fields_view(sch@)),
    decreases *e,
{
    match e {
        Expr::Column(n) => Expr::Column(n.clone()),
        Expr::Literal(v) => Expr::Literal(v.dup()),
        Expr::BinaryExpr { left, op, right } => {
            let l = coerce_expr_exec(left, sch);
            let r = coerce_expr_exec(right, sch);
            let ghost lv = l@;
            let ghost rv = r@;
            let da = expr_dtype_check(&l, sch);
            let db = expr_dtype_check(&r, sch);
            match (da, db) {
                (Some(a), Some(b)) => {
                    if a != b {
                        let st: Option<DataType> = if (a == DataType::Int32 || a == DataType::Int64)
                            && (b == DataType::Int32 || b == DataType::Int64) {
                            Some(DataType::Int64)
                        } else {
                            None
                        };
                        proof {
                            assert(st == supertype(a, b));
                        }
                        match st {
                            Some(stv) => {
                                let lc = if a == stv {
                                    l
                                } else {
                                    Expr::Cast { expr: Box::new(l), dtype: stv }
                                };
                                let rc = if b == stv {
                                    r
                                } else {
                                    Expr::Cast { expr: Box::new(r), dtype: stv }
                                };
                                proof {
                                    assert(lc@ == coerce_side(lv, a, stv));
                                    assert(rc@ == coerce_side(rv, b, stv));
                                }
                                Expr::BinaryExpr { left: Box::new(lc), op: *op, right: Box::new(rc) }
                            },
                            None => Expr::BinaryExpr {
                                left: Box::new(l),
                                op: *op,
                                right: Box::new(r),
                            },
                        }
                    } else {
                        Expr::BinaryExpr { left: Box::new(l), op: *op, right: Box::new(r) }
                    }
                },
                _ => Expr::BinaryExpr { left: Box::new(l), op: *op, right: Box::new(r) },
            }
        },
        Expr::Not(x) => Expr::Not(Box::new(coerce_expr_exec(x, sch))),
        Expr::Agg { kind, expr } => Expr::Agg {
            kind: *kind,
            expr: Box::new(coerce_expr_exec(expr, sch)),
        },
        Expr::Alias { expr, name } => Expr::Alias {
            expr: Box::new(coerce_expr_exec(expr, sch)),
            name: name.clone(),
        },
        Expr::Cast { expr, dtype } => Expr::Cast {
            expr: Box::new(coerce_expr_exec(expr, sch)),
            dtype: *dtype,
        },
    }
}

fn coerce_exprs_exec(es: &Vec<Expr>, sch: &Vec<Field>) -> (r: Vec<Expr>)
    ensures
        exprs_view(r@) == coerce_exprs(exprs_view(es@), fields_view(sch@)),
{
    let n = es.len();
    let mut out: Vec<Expr> = Vec::new();
    let mut i: usize = 0;
    while i < n
        invariant
            n == es@.len(),
            i <= n,
            out@.len() == i,
            forall|j: int|
                0 <= j < i ==> (#[trigger] out@[j])@ == coerce_expr(es@[j]@, fields_view(sch@)),
        decreases n - i,
    {
        out.push(coerce_expr_exec(&es[i], sch));
        i += 1;
    }
    proof {
        assert(exprs_view(out@) =~= coerce_exprs(exprs_view(es@), fields_view(sch@)));
    }
    out
}


// ---------------------------------------------------------------------
// Predicate pushdown: move a filter below a projection that passes its
// columns through untouched, or onto the scan side of a join it only
// reads. Best-effort: anything else leaves the filter in place.
// ---------------------------------------------------------------------

/// Every column the expression reads is among `names`.
pub open spec fn expr_cols_subset(e: ExprV, names: Seq<Seq<char>>) -> bool
    decreases e,
{
    match e {
        ExprV::Column(n) => names.contains(n),
        ExprV::Literal(_) => true,
        ExprV::BinaryExpr { left, op, right } => expr_cols_subset(*left, names)
            && expr_cols_subset(*right, names),
        ExprV::Not(x) => expr_cols_subset(*x, names),
        ExprV::Agg { expr, .. } => expr_cols_subset(*expr, names),
        ExprV::Alias { expr, .. } => expr_cols_subset(*expr, names),
        ExprV::Cast { expr, .. } => expr_cols_subset(*expr, names),
    }
}

/// The columns a projection passes through untouched: its bare column
/// references.
pub open spec fn proj_passthrough(exprs: Seq<ExprV>) -> Seq<Seq<char>>
    decreases exprs.len(),
{
    if exprs.len() == 0 {
        Seq::empty()
    } else {
        (match exprs[0] {
            ExprV::Column(n) => seq![n],
            _ => Seq::<Seq<char>>::empty(),
        }) + proj_passthrough(exprs.drop_first())
    }
}

/// The column names a scan node emits, if the node is a scan.
pub open spec fn scan_cols(p: PlanV) -> Option<Seq<Seq<char>>> {
    match p {
        PlanV::Scan { df, projection } => match projection {
            Some(ns) => Some(ns),
            None => Some(sch_names(schema_of_df(df))),
        },
        _ => None,
    }
}

/// Sinks one filter as deep as it can go: below pass-through
/// projections, and onto a scan side of a join that alone carries its
/// columns (never below the nullable side of an outer or left join).
/// Whether the filter may sink onto the left side of this join.
pub open spec fn join_push_left(pred: ExprV, left: PlanV, how: JoinKind) -> bool {
    match scan_cols(left) {
        Some(ns) => (how == JoinKind::Inner || how == JoinKind::Left) && expr_cols_subset(
            pred,
            ns,
        ),
        None => false,
    }
}

/// Whether the filter may sink onto the right side of this join.
pub open spec fn join_push_right(pred: ExprV, right: PlanV, how: JoinKind) -> bool {
    match scan_cols(right) {
        Some(ns) => how == JoinKind::Inner && expr_cols_subset(pred, ns),
        None => false,
    }
}

pub open spec fn push_filter(pred: ExprV, p: PlanV) -> PlanV
    decreases p,
{
    match p {
        PlanV::Projection { input, exprs } => if expr_cols_subset(pred, proj_passthrough(exprs)) {
            PlanV::Projection { input: Box::new(push_filter(pred, *input)), exprs }
        } else {
            PlanV::Filter { input: Box::new(PlanV::Projection { input, exprs }), predicate: pred }
        },
        PlanV::Join { left, right, how, left_on, right_on } => {
            let lp = join_push_left(pred, *left, how);
            let rp = join_push_right(pred, *right, how);
            if lp {
                PlanV::Join {
                    left: Box::new(PlanV::Filter { input: left, predicate: pred }),
                    right,
                    how,
                    left_on,
                    right_on,
                }
            } else if rp {
                PlanV::Join {
                    left,
                    right: Box::new(PlanV::Filter { input: right, predicate: pred }),
                    how,
                    left_on,
                    right_on,
                }
            } else {
                PlanV::Filter {
                    input: Box::new(PlanV::Join { left, right, how, left_on, right_on }),
                    predicate: pred,
                }
            }
        },
        _ => PlanV::Filter { input: Box::new(p), predicate: pred },
    }
}

/// The predicate pushdown pass.
pub open spec fn pushdown_plan(p: PlanV) -> PlanV
    decreases p,
{
    match p {
        PlanV::Scan { .. } => p,
        PlanV::Filter { input, predicate } => push_filter(predicate, pushdown_plan(*input)),
        PlanV::Projection { input, exprs } => PlanV::Projection {
            input: Box::new(pushdown_plan(*input)),
            exprs,
        },
        PlanV::Aggregate { input, keys, aggs } => PlanV::Aggregate {
            input: Box::new(pushdown_plan(*input)),
            keys,
            aggs,
        },
        PlanV::Join { left, right, how, left_on, right_on } => PlanV::Join {
            left: Box::new(pushdown_plan(*left)),
            right: Box::new(pushdown_plan(*right)),
            how,
            left_on,
            right_on,
        },
        PlanV::Sort { input, by, reverse } => PlanV::Sort {
            input: Box::new(pushdown_plan(*input)),
            by,
            reverse,
        },
    }
}

/// A filter is schema-transparent, so sinking one changes no schema.
pub proof fn lemma_push_filter_schema(pred: ExprV, p: PlanV)
    ensures
        plan_schema(push_filter(pred, p)) == plan_schema(p),
    decreases p,
{
    match p {
        PlanV::Projection { input, exprs } => {
            if expr_cols_subset(pred, proj_passthrough(exprs)) {
                lemma_push_filter_schema(pred, *input);
                assert(plan_schema(PlanV::Projection {
                    input: Box::new(push_filter(pred, *input)),
                    exprs,
                }) == plan_schema(p));
            } else {
                assert(plan_schema(PlanV::Filter { input: Box::new(p), predicate: pred })
                    == plan_schema(p));
            }
        },
        PlanV::Join { left, right, how, left_on, right_on } => {
            assert(plan_schema(PlanV::Filter { input: left, predicate: pred }) == plan_schema(
                *left,
            ));
            assert(plan_schema(PlanV::Filter { input: right, predicate: pred }) == plan_schema(
                *right,
            ));
            assert(plan_schema(PlanV::Filter { input: Box::new(p), predicate: pred })
                == plan_schema(p));
            assert(plan_schema(PlanV::Join {
                left: Box::new(PlanV::Filter { input: left, predicate: pred }),
                right,
                how,
                left_on,
                right_on,
            }) == plan_schema(p));
            assert(plan_schema(PlanV::Join {
                left,
                right: Box::new(PlanV::Filter { input: right, predicate: pred }),
                how,
                left_on,
                right_on,
            }) == plan_schema(p));
        },
        _ => {
            assert(plan_schema(PlanV::Filter { input: Box::new(p), predicate: pred })
                == plan_schema(p));
        },
    }
}

/// Schema preservation: the pushdown pass leaves the plan's output
/// schema unchanged.
pub proof fn lemma_pushdown_schema(p: PlanV)
    ensures
        plan_schema(pushdown_plan(p)) == plan_schema(p),
    decreases p,
{
    match p {
        PlanV::Scan { .. } => {},
        PlanV::Filter { input, predicate } => {
            lemma_pushdown_schema(*input);
            lemma_push_filter_schema(predicate, pushdown_plan(*input));
        },
        PlanV::Projection { input, .. } => {
            lemma_pushdown_schema(*input);
        },
        PlanV::Aggregate { input, .. } => {
            lemma_pushdown_schema(*input);
        },
        PlanV::Join { left, right, .. } => {
            lemma_pushdown_schema(*left);
            lemma_pushdown_schema(*right);
        },
        PlanV::Sort { input, .. } => {
            lemma_pushdown_schema(*input);
        },
    }
}

/// A sunk filter does not move again.
pub proof fn lemma_push_filter_idem(pred: ExprV, q: PlanV)
    requires
        pushdown_plan(q) == q,
    ensures
        pushdown_plan(push_filter(pred, q)) == push_filter(pred, q),
    decreases q,
{
    match q {
        PlanV::Projection { input, exprs } => {
            assert(pushdown_plan(*input) == *input);
            if expr_cols_subset(pred, proj_passthrough(exprs)) {
                lemma_push_filter_idem(pred, *input);
                assert(pushdown_plan(PlanV::Projection {
                    input: Box::new(push_filter(pred, *input)),
                    exprs,
                }) == PlanV::Projection {
                    input: Box::new(pushdown_plan(push_filter(pred, *input))),
                    exprs,
                });
            } else {
                assert(pushdown_plan(PlanV::Filter { input: Box::new(q), predicate: pred })
                    == push_filter(pred, pushdown_plan(q)));
            }
        },
        PlanV::Join { left, right, how, left_on, right_on } => {
            assert(pushdown_plan(*left) == *left);
            assert(pushdown_plan(*right) == *right);
            let lp = join_push_left(pred, *left, how);
            let rp = join_push_right(pred, *right, how);
            if lp {
                assert(*left is Scan);
                assert(push_filter(pred, *left) == PlanV::Filter {
                    input: left,
                    predicate: pred,
                });
                assert(pushdown_plan(PlanV::Filter { input: left, predicate: pred })
                    == push_filter(pred, pushdown_plan(*left)));
                assert(pushdown_plan(PlanV::Join {
                    left: Box::new(PlanV::Filter { input: left, predicate: pred }),
                    right,
                    how,
                    left_on,
                    right_on,
                }) == push_filter(pred, q));
            } else if rp {
                assert(*right is Scan);
                assert(push_filter(pred, *right) == PlanV::Filter {
                    input: right,
                    predicate: pred,
                });
                assert(pushdown_plan(PlanV::Filter { input: right, predicate: pred })
                    == push_filter(pred, pushdown_plan(*right)));
                assert(pushdown_plan(PlanV::Join {
                    left,
                    right: Box::new(PlanV::Filter { input: right, predicate: pred }),
                    how,
                    left_on,
                    right_on,
                }) == push_filter(pred, q));
            } else {
                assert(pushdown_plan(PlanV::Filter { input: Box::new(q), predicate: pred })
                    == push_filter(pred, pushdown_plan(q)));
            }
        },
        _ => {
            assert(pushdown_plan(PlanV::Filter { input: Box::new(q), predicate: pred })
                == push_filter(pred, pushdown_plan(q)));
        },
    }
}

/// Idempotence: running the pushdown pass twice equals running it once.
pub proof fn lemma_pushdown_plan_idem(p: PlanV)
    ensures
        pushdown_plan(pushdown_plan(p)) == pushdown_plan(p),
    decreases p,
{
    match p {
        PlanV::Scan { .. } => {},
        PlanV::Filter { input, predicate } => {
            lemma_pushdown_plan_idem(*input);
            lemma_push_filter_idem(predicate, pushdown_plan(*input));
        },
        PlanV::Projection { input, .. } => {
            lemma_pushdown_plan_idem(*input);
        },
        PlanV::Aggregate { input, .. } => {
            lemma_pushdown_plan_idem(*input);
        },
        PlanV::Join { left, right, .. } => {
            lemma_pushdown_plan_idem(*left);
            lemma_pushdown_plan_idem(*right);
        },
        PlanV::Sort { input, .. } => {
            lemma_pushdown_plan_idem(*input);
        },
    }
}

// ---------------------------------------------------------------------
// Projection pushdown: narrow a scan below a projection to the columns
// the projection actually reads.
// ---------------------------------------------------------------------

/// The expression reads the column of this name.
pub open spec fn expr_refs(e: ExprV, n: Seq<char>) -> bool
    decreases e,
{
    match e {
        ExprV::Column(m) => m == n,
        ExprV::Literal(_) => false,
        ExprV::BinaryExpr { left, op, right } => expr_refs(*left, n) || expr_refs(*right, n),
        ExprV::Not(x) => expr_refs(*x, n),
        ExprV::Agg { expr, .. } => expr_refs(*expr, n),
        ExprV::Alias { expr, .. } => expr_refs(*expr, n),
        ExprV::Cast { expr, .. } => expr_refs(*expr, n),
    }
}

/// Some expression of the run reads the column of this name.
pub open spec fn exprs_ref(s: Seq<ExprV>, n: Seq<char>) -> bool
    decreases s.len(),
{
    if s.len() == 0 {
        false
    } else {
        expr_refs(s[0], n) || exprs_ref(s.drop_first(), n)
    }
}

/// The source columns the expressions read, in source order.
pub open spec fn needed_names(df: Seq<crate::frame::ColV>, exprs: Seq<ExprV>) -> Seq<Seq<char>>
    decreases df.len(),
{
    if df.len() == 0 {
        Seq::empty()
    } else {
        (if exprs_ref(exprs, df[0].name) {
            seq![df[0].name]
        } else {
            Seq::<Seq<char>>::empty()
        }) + needed_names(df.drop_first(), exprs)
    }
}

/// The projection pushdown pass: a projection straight over an
/// unnarrowed scan narrows the scan to the columns it reads.
pub open spec fn projdown_plan(p: PlanV) -> PlanV
    decreases p,
{
    match p {
        PlanV::Scan { .. } => p,
        PlanV::Filter { input, predicate } => PlanV::Filter {
            input: Box::new(projdown_plan(*input)),
            predicate,
        },
        PlanV::Projection { input, exprs } => match *input {
            PlanV::Scan { df, projection: None } => PlanV::Projection {
                input: Box::new(
                    PlanV::Scan { df, projection: Some(needed_names(df, exprs)) },
                ),
                exprs,
            },
            _ => PlanV::Projection { input: Box::new(projdown_plan(*input)), exprs },
        },
        PlanV::Aggregate { input, keys, aggs } => PlanV::Aggregate {
            input: Box::new(projdown_plan(*input)),
            keys,
            aggs,
        },
        PlanV::Join { left, right, how, left_on, right_on } => PlanV::Join {
            left: Box::new(projdown_plan(*left)),
            right: Box::new(projdown_plan(*right)),
            how,
            left_on,
            right_on,
        },
        PlanV::Sort { input, by, reverse } => PlanV::Sort {
            input: Box::new(projdown_plan(*input)),
            by,
            reverse,
        },
    }
}

/// The pass keeps each node's top constructor; in particular it turns
/// no node into an unnarrowed scan.
pub proof fn lemma_projdown_shape(p: PlanV)
    ensures
        p is Scan ==> projdown_plan(p) == p,
        !(p is Scan) ==> !(projdown_plan(p) is Scan),
    decreases p,
{
}

/// Idempotence: running the projection pushdown twice equals running
/// it once.
pub proof fn lemma_projdown_plan_idem(p: PlanV)
    ensures
        projdown_plan(projdown_plan(p)) == projdown_plan(p),
    decreases p,
{
    match p {
        PlanV::Scan { .. } => {},
        PlanV::Filter { input, .. } => {
            lemma_projdown_plan_idem(*input);
        },
        PlanV::Projection { input, exprs } => {
            match *input {
                PlanV::Scan { df, projection: None } => {
                    assert(projdown_plan(PlanV::Scan {
                        df,
                        projection: Some(needed_names(df, exprs)),
                    }) == PlanV::Scan { df, projection: Some(needed_names(df, exprs)) });
                    assert(projdown_plan(projdown_plan(p)) == projdown_plan(p));
                },
                _ => {
                    lemma_projdown_plan_idem(*input);
                    lemma_projdown_shape(*input);
                    match *input {
                        PlanV::Scan { df, projection } => {
                            assert(projdown_plan(*input) == *input);
                        },
                        _ => {
                            assert(!(projdown_plan(*input) is Scan));
                        },
                    }
                },
            }
        },
        PlanV::Aggregate { input, .. } => {
            lemma_projdown_plan_idem(*input);
        },
        PlanV::Join { left, right, .. } => {
            lemma_projdown_plan_idem(*left);
            lemma_projdown_plan_idem(*right);
        },
        PlanV::Sort { input, .. } => {
            lemma_projdown_plan_idem(*input);
        },
    }
}


// ---------------------------------------------------------------------
// Schema preservation of the projection pushdown.
// ---------------------------------------------------------------------

/// The type a name resolves to under a schema.
pub open spec fn lookup_dtype(sch: Seq<FieldV>, n: Seq<char>) -> Option<DataType> {
    match schema_find(sch, n) {
        Some(i) => Some(sch[i].dtype),
        None => None,
    }
}

pub proof fn lemma_lookup_cons(f: FieldV, rest: Seq<FieldV>, n: Seq<char>)
    ensures
        f.name != n ==> lookup_dtype(seq![f] + rest, n) == lookup_dtype(rest, n),
        f.name == n ==> lookup_dtype(seq![f] + rest, n) == Some(f.dtype),
{
    assert((seq![f] + rest).drop_first() =~= rest);
    assert((seq![f] + rest)[0] == f);
    if f.name != n {
        lemma_schema_find(rest, n);
        match schema_find(rest, n) {
            Some(i) => {
                assert((seq![f] + rest)[i + 1] == rest[i]);
            },
            None => {},
        }
    }
}

/// Narrowing a schema to a name set leaves the lookup of a kept name
/// unchanged, and a name outside the set resolves to nothing.
pub proof fn lemma_project_lookup(sch: Seq<FieldV>, names: Seq<Seq<char>>, n: Seq<char>)
    ensures
        names.contains(n) ==> lookup_dtype(project_fields(sch, names), n) == lookup_dtype(sch, n),
        !names.contains(n) ==> schema_find(project_fields(sch, names), n) is None,
    decreases sch.len(),
{
    if sch.len() == 0 {
    } else {
        let f0 = sch[0];
        let rest = sch.drop_first();
        lemma_project_lookup(rest, names, n);
        assert(sch =~= seq![f0] + rest);
        lemma_lookup_cons(f0, rest, n);
        if names.contains(f0.name) {
            assert(project_fields(sch, names) == seq![f0] + project_fields(rest, names));
            lemma_lookup_cons(f0, project_fields(rest, names), n);
        } else {
            assert(project_fields(sch, names) =~= project_fields(rest, names));
            if f0.name == n {
                assert(!names.contains(n));
            }
        }
    }
}

/// Every source column an expression run reads enters the needed set.
pub proof fn lemma_needed_covers(df: Seq<crate::frame::ColV>, exprs: Seq<ExprV>, n: Seq<char>)
    requires
        exprs_ref(exprs, n),
        !needed_names(df, exprs).contains(n),
    ensures
        schema_find(schema_of_df(df), n) is None,
    decreases df.len(),
{
    if df.len() == 0 {
    } else {
        let rest = df.drop_first();
        if df[0].name == n {
            assert(needed_names(df, exprs)[0] == n);
            assert(needed_names(df, exprs).contains(n));
        } else {
            assert forall|k: int| 0 <= k < needed_names(rest, exprs).len() implies needed_names(
                df,
                exprs,
            ).contains(needed_names(rest, exprs)[k]) by {
                let off = needed_names(df, exprs).len() - needed_names(rest, exprs).len();
                assert(needed_names(df, exprs)[k + off] == needed_names(rest, exprs)[k]);
            }
            if needed_names(rest, exprs).contains(n) {
                assert(needed_names(df, exprs).contains(n));
            }
            lemma_needed_covers(rest, exprs, n);
            assert(schema_of_df(df).drop_first() =~= schema_of_df(rest));
            assert(schema_of_df(df)[0].name == df[0].name);
        }
    }
}

/// An expression types the same under two schemas that agree on every
/// name it reads.
pub proof fn lemma_expr_dtype_by_lookup(e: ExprV, s1: Seq<FieldV>, s2: Seq<FieldV>)
    requires
        forall|n: Seq<char>| #[trigger] expr_refs(e, n) ==> lookup_dtype(s1, n) == lookup_dtype(
            s2,
            n,
        ),
    ensures
        expr_dtype(e, s1) == expr_dtype(e, s2),
    decreases e,
{
    match e {
        ExprV::Column(n) => {
            assert(expr_refs(e, n));
        },
        ExprV::BinaryExpr { left, op, right } => {
            assert forall|n: Seq<char>| #[trigger] expr_refs(*left, n) implies lookup_dtype(s1, n)
                == lookup_dtype(s2, n) by {
                assert(expr_refs(e, n));
            }
            assert forall|n: Seq<char>| #[trigger] expr_refs(*right, n) implies lookup_dtype(s1, n)
                == lookup_dtype(s2, n) by {
                assert(expr_refs(e, n));
            }
            lemma_expr_dtype_by_lookup(*left, s1, s2);
            lemma_expr_dtype_by_lookup(*right, s1, s2);
        },
        ExprV::Not(x) => {
            assert forall|n: Seq<char>| #[trigger] expr_refs(*x, n) implies lookup_dtype(s1, n)
                == lookup_dtype(s2, n) by {
                assert(expr_refs(e, n));
            }
            lemma_expr_dtype_by_lookup(*x, s1, s2);
        },
        ExprV::Agg { expr, .. } => {},
        ExprV::Alias { expr, .. } => {
            assert forall|n: Seq<char>| #[trigger] expr_refs(*expr, n) implies lookup_dtype(s1, n)
                == lookup_dtype(s2, n) by {
                assert(expr_refs(e, n));
            }
            lemma_expr_dtype_by_lookup(*expr, s1, s2);
        },
        ExprV::Cast { expr, .. } => {
            assert forall|n: Seq<char>| #[trigger] expr_refs(*expr, n) implies lookup_dtype(s1, n)
                == lookup_dtype(s2, n) by {
                assert(expr_refs(e, n));
            }
            lemma_expr_dtype_by_lookup(*expr, s1, s2);
        },
        _ => {},
    }
}

/// A projection's fields are the same under two schemas that agree on
/// every name its expressions read.
pub proof fn lemma_exprs_fields_by_lookup(s: Seq<ExprV>, s1: Seq<FieldV>, s2: Seq<FieldV>)
    requires
        forall|n: Seq<char>| #[trigger] exprs_ref(s, n) ==> lookup_dtype(s1, n) == lookup_dtype(
            s2,
            n,
        ),
    ensures
        exprs_fields(s, s1) == exprs_fields(s, s2),
    decreases s.len(),
{
    if s.len() != 0 {
        assert forall|n: Seq<char>| #[trigger] expr_refs(s[0], n) implies lookup_dtype(s1, n)
            == lookup_dtype(s2, n) by {
            assert(exprs_ref(s, n));
        }
        lemma_expr_dtype_by_lookup(s[0], s1, s2);
        assert forall|n: Seq<char>| #[trigger] exprs_ref(s.drop_first(), n) implies lookup_dtype(
            s1,
            n,
        ) == lookup_dtype(s2, n) by {
            assert(exprs_ref(s, n));
        }
        lemma_exprs_fields_by_lookup(s.drop_first(), s1, s2);
    }
}

/// Schema preservation: the projection pushdown leaves the plan's
/// output schema unchanged.
pub proof fn lemma_projdown_schema(p: PlanV)
    ensures
        plan_schema(projdown_plan(p)) == plan_schema(p),
    decreases p,
{
    match p {
        PlanV::Scan { .. } => {},
        PlanV::Filter { input, .. } => {
            lemma_projdown_schema(*input);
        },
        PlanV::Projection { input, exprs } => {
            match *input {
                PlanV::Scan { df, projection: None } => {
                    let sch = schema_of_df(df);
                    let needed = needed_names(df, exprs);
                    assert forall|n: Seq<char>| #[trigger] exprs_ref(exprs, n) implies lookup_dtype(
                        project_fields(sch, needed),
                        n,
                    ) == lookup_dtype(sch, n) by {
                        lemma_project_lookup(sch, needed, n);
                        if !needed.contains(n) {
                            lemma_needed_covers(df, exprs, n);
                        }
                    }
                    lemma_exprs_fields_by_lookup(exprs, project_fields(sch, needed), sch);
                    assert(plan_schema(PlanV::Scan { df, projection: Some(needed) }) == Some(
                        project_fields(sch, needed),
                    ));
                    assert(plan_schema(*input) == Some(sch));
                },
                _ => {
                    lemma_projdown_schema(*input);
                },
            }
        },
        PlanV::Aggregate { input, .. } => {
            lemma_projdown_schema(*input);
        },
        PlanV::Join { left, right, .. } => {
            lemma_projdown_schema(*left);
            lemma_projdown_schema(*right);
        },
        PlanV::Sort { input, .. } => {
            lemma_projdown_schema(*input);
        },
    }
}


// ---------------------------------------------------------------------
// Executable schema computation and the executable passes.
// ---------------------------------------------------------------------

fn schema_of_df_exec(df: &crate::frame::DataFrame) -> (r: Vec<Field>)
    ensures
        fields_view(r@) == schema_of_df(df@),
{
    let n = df.columns.len();
    let mut out: Vec<Field> = Vec::new();
    let mut i: usize = 0;
    while i < n
        invariant
            n == df.columns@.len(),
            i <= n,
            out@.len() == i,
            forall|j: int|
                0 <= j < i ==> (#[trigger] out@[j]).name@ == df@[j].name && out@[j].dtype
                    == df@[j].dtype,
        decreases n - i,
    {
        out.push(
            Field { name: df.columns[i].ca.get_name().clone(), dtype: df.columns[i].dtype },
        );
        i += 1;
    }
    proof {
        assert(fields_view(out@) =~= schema_of_df(df@));
    }
    out
}

fn ns_contains(names: &Vec<String>, n: &String) -> (r: bool)
    ensures
        r == names_view(names@).contains(n@),
{
    let m = names.len();
    let mut i: usize = 0;
    while i < m
        invariant
            m == names@.len(),
            i <= m,
            forall|j: int| 0 <= j < i ==> (#[trigger] names_view(names@)[j]) != n@,
        decreases m - i,
    {
        if names[i] == *n {
            proof {
                assert(names_view(names@)[i as int] == n@);
            }
            return true;
        }
        proof {
            assert(names_view(names@)[i as int] == names@[i as int]@);
        }
        i += 1;
    }
    proof {
        assert(!names_view(names@).contains(n@));
    }
    false
}

fn project_fields_exec(sch: &Vec<Field>, names: &Vec<String>) -> (r: Vec<Field>)
    ensures
        fields_view(r@) == project_fields(fields_view(sch@), names_view(names@)),
{
    let n = sch.len();
    let ghost sv = fields_view(sch@);
    let ghost nv = names_view(names@);
    let mut out: Vec<Field> = Vec::new();
    let mut i: usize = 0;
    proof {
        assert(sv.skip(0) =~= sv);
        assert(fields_view(out@) + project_fields(sv, nv) =~= project_fields(sv, nv));
    }
    while i < n
        invariant
            n == sch@.len(),
            sv == fields_view(sch@),
            nv == names_view(names@),
            i <= n,
            project_fields(sv, nv) == fields_view(out@) + project_fields(sv.skip(i as int), nv),
        decreases n - i,
    {
        proof {
            assert(sv.skip(i as int)[0] == sv[i as int]);
            assert(sv.skip(i as int).drop_first() =~= sv.skip(i + 1));
        }
        if ns_contains(names, &sch[i].name) {
            out.push(Field { name: sch[i].name.clone(), dtype: sch[i].dtype });
            proof {
                assert(fields_view(out@) =~= fields_view(out@.drop_last()) + seq![sv[i as int]]);
                assert(fields_view(out@) + project_fields(sv.skip(i + 1), nv) =~= fields_view(
                    out@.drop_last(),
                ) + (seq![sv[i as int]] + project_fields(sv.skip(i + 1), nv)));
            }
        }
        i += 1;
    }
    proof {
        assert(sv.skip(n as int) =~= Seq::<FieldV>::empty());
        assert(fields_view(out@) + project_fields(sv.skip(n as int), nv) =~= fields_view(out@));
    }
    out
}

/// The output name an expression's column carries.
pub fn expr_output_name(e: &Expr) -> (r: String)
    ensures
        r@ == crate::expr::expr_out_name(e@),
    decreases *e,
{
    match e {
        Expr::Column(n) => n.clone(),
        Expr::Literal(_) => {
            let mut s = String::new();
            s.append("literal");
            s
        },
        Expr::BinaryExpr { left, .. } => expr_output_name(left),
        Expr::Not(x) => expr_output_name(x),
        Expr::Agg { expr, .. } => expr_output_name(expr),
        Expr::Alias { name, .. } => name.clone(),
        Expr::Cast { expr, .. } => expr_output_name(expr),
    }
}

fn exprs_fields_exec(es: &Vec<Expr>, sch: &Vec<Field>) -> (r: Option<Vec<Field>>)
    ensures
        match r {
            Some(v) => exprs_fields(exprs_view(es@), fields_view(sch@)) == Some(fields_view(v@)),
            None => exprs_fields(exprs_view(es@), fields_view(sch@)) is None,
        },
{
    let n = es.len();
    let ghost ev = exprs_view(es@);
    let ghost sv = fields_view(sch@);
    let mut out: Vec<Field> = Vec::new();
    let mut i: usize = 0;
    proof {
        assert(ev.skip(0) =~= ev);
        match exprs_fields(ev, sv) {
            Some(rest) => {
                assert(fields_view(out@) + rest =~= rest);
            },
            None => {},
        }
    }
    while i < n
        invariant
            n == es@.len(),
            ev == exprs_view(es@),
            sv == fields_view(sch@),
            i <= n,
            exprs_fields(ev, sv) == (match exprs_fields(ev.skip(i as int), sv) {
                Some(rest) => Some(fields_view(out@) + rest),
                None => None::<Seq<FieldV>>,
            }),
        decreases n - i,
    {
        proof {
            assert(ev.skip(i as int)[0] == ev[i as int]);
            assert(ev.skip(i as int).drop_first() =~= ev.skip(i + 1));
            assert(ev[i as int] == es@[i as int]@);
        }
        match expr_dtype_check(&es[i], sch) {
            Some(d) => {
                out.push(Field { name: expr_output_name(&es[i]), dtype: d });
                proof {
                    assert(fields_view(out@) =~= fields_view(out@.drop_last()) + seq![
                        FieldV {
                            name: crate::expr::expr_out_name(ev[i as int]),
                            dtype: d,
                        },
                    ]);
                    match exprs_fields(ev.skip(i + 1), sv) {
                        Some(rest) => {
                            assert(fields_view(out@) + rest =~= fields_view(out@.drop_last()) + (
                            seq![
                                FieldV {
                                    name: crate::expr::expr_out_name(ev[i as int]),
                                    dtype: d,
                                },
                            ] + rest));
                        },
                        None => {},
                    }
                }
            },
            None => {
                return None;
            },
        }
        i += 1;
    }
    proof {
        assert(ev.skip(n as int) =~= Seq::<ExprV>::empty());
        assert(fields_view(out@) + Seq::<FieldV>::empty() =~= fields_view(out@));
    }
    Some(out)
}

fn agg_dtype_check(e: &Expr, sch: &Vec<Field>) -> (r: Option<DataType>)
    ensures
        r == agg_expr_dtype(e@, fields_view(sch@)),
    decreases *e,
{
    match e {
        Expr::Agg { expr, .. } => match expr_dtype_check(expr, sch) {
            Some(_) => Some(DataType::Int64),
            None => None,
        },
        Expr::Alias { expr, .. } => agg_dtype_check(expr, sch),
        _ => None,
    }
}

fn agg_fields_exec(es: &Vec<Expr>, sch: &Vec<Field>) -> (r: Option<Vec<Field>>)
    ensures
        match r {
            Some(v) => agg_fields(exprs_view(es@), fields_view(sch@)) == Some(fields_view(v@)),
            None => agg_fields(exprs_view(es@), fields_view(sch@)) is None,
        },
{
    let n = es.len();
    let ghost ev = exprs_view(es@);
    let ghost sv = fields_view(sch@);
    let mut out: Vec<Field> = Vec::new();
    let mut i: usize = 0;
    proof {
        assert(ev.skip(0) =~= ev);
        match agg_fields(ev, sv) {
            Some(rest) => {
                assert(fields_view(out@) + rest =~= rest);
            },
            None => {},
        }
    }
    while i < n
        invariant
            n == es@.len(),
            ev == exprs_view(es@),
            sv == fields_view(sch@),
            i <= n,
            agg_fields(ev, sv) == (match agg_fields(ev.skip(i as int), sv) {
                Some(rest) => Some(fields_view(out@) + rest),
                None => None::<Seq<FieldV>>,
            }),
        decreases n - i,
    {
        proof {
            assert(ev.skip(i as int)[0] == ev[i as int]);
            assert(ev.skip(i as int).drop_first() =~= ev.skip(i + 1));
            assert(ev[i as int] == es@[i as int]@);
        }
        match agg_dtype_check(&es[i], sch) {
            Some(d) => {
                out.push(Field { name: expr_output_name(&es[i]), dtype: d });
                proof {
                    assert(fields_view(out@) =~= fields_view(out@.drop_last()) + seq![
                        FieldV {
                            name: crate::expr::expr_out_name(ev[i as int]),
                            dtype: d,
                        },
                    ]);
                    match agg_fields(ev.skip(i + 1), sv) {
                        Some(rest) => {
                            assert(fields_view(out@) + rest =~= fields_view(out@.drop_last()) + (
                            seq![
                                FieldV {
                                    name: crate::expr::expr_out_name(ev[i as int]),
                                    dtype: d,
                                },
                            ] + rest));
                        },
                        None => {},
                    }
                }
            },
            None => {
                return None;
            },
        }
        i += 1;
    }
    proof {
        assert(ev.skip(n as int) =~= Seq::<ExprV>::empty());
        assert(fields_view(out@) + Seq::<FieldV>::empty() =~= fields_view(out@));
    }
    Some(out)
}

fn select_fields_exec(sch: &Vec<Field>, names: &Vec<String>) -> (r: Option<Vec<Field>>)
    ensures
        match r {
            Some(v) => select_fields(fields_view(sch@), names_view(names@)) == Some(
                fields_view(v@),
            ),
            None => select_fields(fields_view(sch@), names_view(names@)) is None,
        },
{
    let n = names.len();
    let ghost sv = fields_view(sch@);
    let ghost nv = names_view(names@);
    let mut out: Vec<Field> = Vec::new();
    let mut i: usize = 0;
    proof {
        assert(nv.skip(0) =~= nv);
        match select_fields(sv, nv) {
            Some(rest) => {
                assert(fields_view(out@) + rest =~= rest);
            },
            None => {},
        }
    }
    while i < n
        invariant
            n == names@.len(),
            sv == fields_view(sch@),
            nv == names_view(names@),
            i <= n,
            select_fields(sv, nv) == (match select_fields(sv, nv.skip(i as int)) {
                Some(rest) => Some(fields_view(out@) + rest),
                None => None::<Seq<FieldV>>,
            }),
        decreases n - i,
    {
        proof {
            assert(nv.skip(i as int)[0] == nv[i as int]);
            assert(nv.skip(i as int).drop_first() =~= nv.skip(i + 1));
            assert(nv[i as int] == names@[i as int]@);
        }
        match schema_find_check(sch, &names[i]) {
            Some(k) => {
                proof {
                    crate::plan::lemma_schema_find(sv, nv[i as int]);
                }
                out.push(Field { name: sch[k].name.clone(), dtype: sch[k].dtype });
                proof {
                    assert(fields_view(out@) =~= fields_view(out@.drop_last()) + seq![
                        sv[k as int],
                    ]);
                    match select_fields(sv, nv.skip(i + 1)) {
                        Some(rest) => {
                            assert(fields_view(out@) + rest =~= fields_view(out@.drop_last()) + (
                            seq![sv[k as int]] + rest));
                        },
                        None => {},
                    }
                }
            },
            None => {
                return None;
            },
        }
        i += 1;
    }
    proof {
        assert(nv.skip(n as int) =~= Seq::<Seq<char>>::empty());
        assert(fields_view(out@) + Seq::<FieldV>::empty() =~= fields_view(out@));
    }
    Some(out)
}

fn join_right_fields_exec(lsch: &Vec<Field>, rsch: &Vec<Field>) -> (r: Vec<Field>)
    ensures
        fields_view(r@) == join_right_fields(fields_view(lsch@), fields_view(rsch@)),
{
    let n = rsch.len();
    let mut out: Vec<Field> = Vec::new();
    let mut i: usize = 0;
    while i < n
        invariant
            n == rsch@.len(),
            i <= n,
            out@.len() == i,
            forall|j: int|
                0 <= j < i ==> (#[trigger] fields_view(out@)[j]) == join_right_fields(
                    fields_view(lsch@),
                    fields_view(rsch@),
                )[j],
        decreases n - i,
    {
        let mut name = rsch[i].name.clone();
        match schema_find_check(lsch, &name) {
            Some(_) => {
                name.append("_right");
            },
            None => {},
        }
        let ghost prev = out@;
        out.push(Field { name, dtype: rsch[i].dtype });
        proof {
            assert(fields_view(rsch@)[i as int] == FieldV {
                name: rsch@[i as int].name@,
                dtype: rsch@[i as int].dtype,
            });
            assert forall|j: int| 0 <= j < prev.len() implies #[trigger] fields_view(out@)[j]
                == fields_view(prev)[j] by {
                assert(out@[j] == prev[j]);
            }
            assert(fields_view(out@)[i as int] == join_right_fields(
                fields_view(lsch@),
                fields_view(rsch@),
            )[i as int]);
        }
        i += 1;
    }
    proof {
        assert(fields_view(out@) =~= join_right_fields(fields_view(lsch@), fields_view(rsch@)));
    }
    out
}

/// Computes the static schema of a plan, as `plan_schema` says.
pub fn plan_schema_check(p: &LogicalPlan) -> (r: Option<Vec<Field>>)
    ensures
        match r {
            Some(v) => plan_schema(p@) == Some(fields_view(v@)),
            None => plan_schema(p@) is None,
        },
    decreases *p,
{
    match p {
        LogicalPlan::Scan { df, projection } => match projection {
            None => Some(schema_of_df_exec(df)),
            Some(ns) => {
                let base = schema_of_df_exec(df);
                Some(project_fields_exec(&base, ns))
            },
        },
        LogicalPlan::Filter { input, .. } => plan_schema_check(input),
        LogicalPlan::Projection { input, exprs } => match plan_schema_check(input) {
            Some(sch) => exprs_fields_exec(exprs, &sch),
            None => None,
        },
        LogicalPlan::Aggregate { input, keys, aggs } => match plan_schema_check(input) {
            Some(sch) => {
                match (select_fields_exec(&sch, keys), agg_fields_exec(aggs, &sch)) {
                    (Some(kf), Some(af)) => {
                        let mut out = kf;
                        let ghost kvv = fields_view(out@);
                        let n = af.len();
                        let mut i: usize = 0;
                        while i < n
                            invariant
                                n == af@.len(),
                                i <= n,
                                out@.len() == kvv.len() + i,
                                forall|j: int|
                                    0 <= j < kvv.len() ==> #[trigger] fields_view(out@)[j]
                                        == kvv[j],
                                forall|j: int|
                                    0 <= j < i ==> #[trigger] fields_view(out@)[kvv.len() + j]
                                        == fields_view(af@)[j],
                            decreases n - i,
                        {
                            let ghost prev = out@;
                            out.push(Field { name: af[i].name.clone(), dtype: af[i].dtype });
                            proof {
                                assert forall|j: int| 0 <= j < prev.len() implies
                                    #[trigger] fields_view(out@)[j] == fields_view(prev)[j] by {
                                    assert(out@[j] == prev[j]);
                                }
                                assert(fields_view(out@)[kvv.len() + i] == fields_view(
                                    af@,
                                )[i as int]);
                            }
                            i += 1;
                        }
                        proof {
                            assert forall|k: int| 0 <= k < out@.len() implies #[trigger] fields_view(
                                out@,
                            )[k] == (kvv + fields_view(af@))[k] by {
                                if k >= kvv.len() {
                                    assert(fields_view(out@)[kvv.len() + (k - kvv.len())]
                                        == fields_view(af@)[k - kvv.len()]);
                                }
                            }
                            assert(fields_view(out@) =~= kvv + fields_view(af@));
                        }
                        Some(out)
                    },
                    _ => None,
                }
            },
            None => None,
        },
        LogicalPlan::Join { left, right, .. } => {
            match (plan_schema_check(left), plan_schema_check(right)) {
                (Some(ls), Some(rs)) => {
                    let rf = join_right_fields_exec(&ls, &rs);
                    let mut out = ls;
                    let ghost lvv = fields_view(out@);
                    let n = rf.len();
                    let mut i: usize = 0;
                    while i < n
                        invariant
                            n == rf@.len(),
                            i <= n,
                            out@.len() == lvv.len() + i,
                            forall|j: int|
                                0 <= j < lvv.len() ==> #[trigger] fields_view(out@)[j] == lvv[j],
                            forall|j: int|
                                0 <= j < i ==> #[trigger] fields_view(out@)[lvv.len() + j]
                                    == fields_view(rf@)[j],
                        decreases n - i,
                    {
                        let ghost prev = out@;
                        out.push(Field { name: rf[i].name.clone(), dtype: rf[i].dtype });
                        proof {
                            assert forall|j: int| 0 <= j < prev.len() implies
                                #[trigger] fields_view(out@)[j] == fields_view(prev)[j] by {
                                assert(out@[j] == prev[j]);
                            }
                            assert(fields_view(out@)[lvv.len() + i] == fields_view(rf@)[i as int]);
                        }
                        i += 1;
                    }
                    proof {
                        assert forall|k: int| 0 <= k < out@.len() implies #[trigger] fields_view(
                            out@,
                        )[k] == (lvv + fields_view(rf@))[k] by {
                            if k >= lvv.len() {
                                assert(fields_view(out@)[lvv.len() + (k - lvv.len())]
                                    == fields_view(rf@)[k - lvv.len()]);
                            }
                        }
                        assert(fields_view(out@) =~= lvv + fields_view(rf@));
                    }
                    Some(out)
                },
                _ => None,
            }
        },
        LogicalPlan::Sort { input, .. } => plan_schema_check(input),
    }
}


/// Runs the type coercion pass, as `coerce_plan` says.
pub fn type_coercion_pass(p: LogicalPlan) -> (r: LogicalPlan)
    ensures
        r@ == coerce_plan(p@),
        crate::plan::plan_exec_wf(p) ==> crate::plan::plan_exec_wf(r),
    decreases p,
{
    match p {
        LogicalPlan::Scan { df, projection } => LogicalPlan::Scan { df, projection },
        LogicalPlan::Filter { input, predicate } => {
            let sch_opt = plan_schema_check(&input);
            let pred2 = match &sch_opt {
                Some(sch) => coerce_expr_exec(&predicate, sch),
                None => predicate,
            };
            LogicalPlan::Filter { input: Box::new(type_coercion_pass(*input)), predicate: pred2 }
        },
        LogicalPlan::Projection { input, exprs } => {
            let sch_opt = plan_schema_check(&input);
            let exprs2 = match &sch_opt {
                Some(sch) => coerce_exprs_exec(&exprs, sch),
                None => exprs,
            };
            LogicalPlan::Projection { input: Box::new(type_coercion_pass(*input)), exprs: exprs2 }
        },
        LogicalPlan::Aggregate { input, keys, aggs } => {
            let sch_opt = plan_schema_check(&input);
            let aggs2 = match &sch_opt {
                Some(sch) => coerce_exprs_exec(&aggs, sch),
                None => aggs,
            };
            LogicalPlan::Aggregate {
                input: Box::new(type_coercion_pass(*input)),
                keys,
                aggs: aggs2,
            }
        },
        LogicalPlan::Join { left, right, how, left_on, right_on } => {
            let lsch = plan_schema_check(&left);
            let rsch = plan_schema_check(&right);
            let lo = match &lsch {
                Some(sch) => coerce_expr_exec(&left_on, sch),
                None => left_on,
            };
            let ro = match &rsch {
                Some(sch) => coerce_expr_exec(&right_on, sch),
                None => right_on,
            };
            LogicalPlan::Join {
                left: Box::new(type_coercion_pass(*left)),
                right: Box::new(type_coercion_pass(*right)),
                how,
                left_on: lo,
                right_on: ro,
            }
        },
        LogicalPlan::Sort { input, by, reverse } => LogicalPlan::Sort {
            input: Box::new(type_coercion_pass(*input)),
            by,
            reverse,
        },
    }
}

fn expr_cols_subset_check(e: &Expr, names: &Vec<String>) -> (r: bool)
    ensures
        r == expr_cols_subset(e@, names_view(names@)),
    decreases *e,
{
    match e {
        Expr::Column(n) => ns_contains(names, n),
        Expr::Literal(_) => true,
        Expr::BinaryExpr { left, op, right } => expr_cols_subset_check(left, names)
            && expr_cols_subset_check(right, names),
        Expr::Not(x) => expr_cols_subset_check(x, names),
        Expr::Agg { expr, .. } => expr_cols_subset_check(expr, names),
        Expr::Alias { expr, .. } => expr_cols_subset_check(expr, names),
        Expr::Cast { expr, .. } => expr_cols_subset_check(expr, names),
    }
}

fn proj_passthrough_exec(exprs: &Vec<Expr>) -> (r: Vec<String>)
    ensures
        names_view(r@) == proj_passthrough(exprs_view(exprs@)),
{
    let n = exprs.len();
    let ghost ev = exprs_view(exprs@);
    let mut out: Vec<String> = Vec::new();
    let mut i: usize = 0;
    proof {
        assert(ev.skip(0) =~= ev);
        assert(names_view(out@) + proj_passthrough(ev) =~= proj_passthrough(ev));
    }
    while i < n
        invariant
            n == exprs@.len(),
            ev == exprs_view(exprs@),
            i <= n,
            proj_passthrough(ev) == names_view(out@) + proj_passthrough(ev.skip(i as int)),
        decreases n - i,
    {
        proof {
            assert(ev.skip(i as int)[0] == ev[i as int]);
            assert(ev.skip(i as int).drop_first() =~= ev.skip(i + 1));
            assert(ev[i as int] == exprs@[i as int]@);
        }
        let ghost prev = out@;
        match &exprs[i] {
            Expr::Column(nm) => {
                out.push(nm.clone());
                proof {
                    assert forall|j: int| 0 <= j < prev.len() implies #[trigger] names_view(
                        out@,
                    )[j] == names_view(prev)[j] by {
                        assert(out@[j] == prev[j]);
                    }
                    assert(names_view(out@) =~= names_view(prev) + seq![
                        names_view(out@)[prev.len() as int],
                    ]);
                    assert(names_view(out@) + proj_passthrough(ev.skip(i + 1)) =~= names_view(
                        prev,
                    ) + (seq![names_view(out@)[prev.len() as int]] + proj_passthrough(
                        ev.skip(i + 1),
                    )));
                }
            },
            _ => {},
        }
        i += 1;
    }
    proof {
        assert(ev.skip(n as int) =~= Seq::<ExprV>::empty());
        assert(names_view(out@) + proj_passthrough(ev.skip(n as int)) =~= names_view(out@));
    }
    out
}

fn scan_cols_exec(p: &LogicalPlan) -> (r: Option<Vec<String>>)
    ensures
        match r {
            Some(v) => scan_cols(p@) == Some(names_view(v@)),
            None => scan_cols(p@) is None,
        },
{
    match p {
        LogicalPlan::Scan { df, projection } => match projection {
            Some(ns) => {
                let n = ns.len();
                let mut out: Vec<String> = Vec::new();
                let mut i: usize = 0;
                while i < n
                    invariant
                        n == ns@.len(),
                        i <= n,
                        out@.len() == i,
                        forall|j: int| 0 <= j < i ==> (#[trigger] out@[j])@ == ns@[j]@,
                    decreases n - i,
                {
                    out.push(ns[i].clone());
                    i += 1;
                }
                proof {
                    assert(names_view(out@) =~= names_view(ns@));
                }
                Some(out)
            },
            None => {
                let n = df.columns.len();
                let mut out: Vec<String> = Vec::new();
                let mut i: usize = 0;
                while i < n
                    invariant
                        n == df.columns@.len(),
                        i <= n,
                        out@.len() == i,
                        forall|j: int| 0 <= j < i ==> (#[trigger] out@[j])@ == df@[j].name,
                    decreases n - i,
                {
                    out.push(df.columns[i].ca.get_name().clone());
                    i += 1;
                }
                proof {
                    assert(names_view(out@) =~= sch_names(schema_of_df(df@)));
                }
                Some(out)
            },
        },
        _ => None,
    }
}

/// Sinks one filter, as `push_filter` says.
fn push_filter_exec(pred: Expr, p: LogicalPlan) -> (r: LogicalPlan)
    ensures
        r@ == push_filter(pred@, p@),
        crate::plan::plan_exec_wf(p) ==> crate::plan::plan_exec_wf(r),
    decreases p,
{
    let ghost p0 = p;
    match p {
        LogicalPlan::Projection { input, exprs } => {
            let pass = proj_passthrough_exec(&exprs);
            if expr_cols_subset_check(&pred, &pass) {
                LogicalPlan::Projection { input: Box::new(push_filter_exec(pred, *input)), exprs }
            } else {
                let pr = LogicalPlan::Projection { input, exprs };
                let ghost prv = pr@;
                proof {
                    assert(crate::plan::plan_exec_wf(p0) ==> crate::plan::plan_exec_wf(pr));
                }
                LogicalPlan::Filter { input: Box::new(pr), predicate: pred }
            }
        },
        LogicalPlan::Join { left, right, how, left_on, right_on } => {
            let lp = match scan_cols_exec(&left) {
                Some(ns) => (how == JoinKind::Inner || how == JoinKind::Left)
                    && expr_cols_subset_check(&pred, &ns),
                None => false,
            };
            let rp = match scan_cols_exec(&right) {
                Some(ns) => how == JoinKind::Inner && expr_cols_subset_check(&pred, &ns),
                None => false,
            };
            proof {
                assert(lp == join_push_left(pred@, left@, how));
                assert(rp == join_push_right(pred@, right@, how));
            }
            if lp {
                let fl = LogicalPlan::Filter { input: left, predicate: pred };
                let ghost flv = fl@;
                proof {
                    assert(crate::plan::plan_exec_wf(p0) ==> crate::plan::plan_exec_wf(fl));
                }
                LogicalPlan::Join { left: Box::new(fl), right, how, left_on, right_on }
            } else if rp {
                let fr = LogicalPlan::Filter { input: right, predicate: pred };
                let ghost frv = fr@;
                proof {
                    assert(crate::plan::plan_exec_wf(p0) ==> crate::plan::plan_exec_wf(fr));
                }
                LogicalPlan::Join { left, right: Box::new(fr), how, left_on, right_on }
            } else {
                let jn = LogicalPlan::Join { left, right, how, left_on, right_on };
                let ghost jv = jn@;
                proof {
                    assert(crate::plan::plan_exec_wf(p0) ==> crate::plan::plan_exec_wf(jn));
                }
                LogicalPlan::Filter { input: Box::new(jn), predicate: pred }
            }
        },
        _ => LogicalPlan::Filter { input: Box::new(p), predicate: pred },
    }
}

/// Runs the predicate pushdown pass, as `pushdown_plan` says.
pub fn predicate_pushdown_pass(p: LogicalPlan) -> (r: LogicalPlan)
    ensures
        r@ == pushdown_plan(p@),
        crate::plan::plan_exec_wf(p) ==> crate::plan::plan_exec_wf(r),
    decreases p,
{
    match p {
        LogicalPlan::Scan { df, projection } => LogicalPlan::Scan { df, projection },
        LogicalPlan::Filter { input, predicate } => {
            let inner = predicate_pushdown_pass(*input);
            push_filter_exec(predicate, inner)
        },
        LogicalPlan::Projection { input, exprs } => LogicalPlan::Projection {
            input: Box::new(predicate_pushdown_pass(*input)),
            exprs,
        },
        LogicalPlan::Aggregate { input, keys, aggs } => LogicalPlan::Aggregate {
            input: Box::new(predicate_pushdown_pass(*input)),
            keys,
            aggs,
        },
        LogicalPlan::Join { left, right, how, left_on, right_on } => LogicalPlan::Join {
            left: Box::new(predicate_pushdown_pass(*left)),
            right: Box::new(predicate_pushdown_pass(*right)),
            how,
            left_on,
            right_on,
        },
        LogicalPlan::Sort { input, by, reverse } => LogicalPlan::Sort {
            input: Box::new(predicate_pushdown_pass(*input)),
            by,
            reverse,
        },
    }
}

fn expr_refs_check(e: &Expr, n: &String) -> (r: bool)
    ensures
        r == expr_refs(e@, n@),
    decreases *e,
{
    match e {
        Expr::Column(m) => *m == *n,
        Expr::Literal(_) => false,
        Expr::BinaryExpr { left, op, right } => expr_refs_check(left, n) || expr_refs_check(
            right,
            n,
        ),
        Expr::Not(x) => expr_refs_check(x, n),
        Expr::Agg { expr, .. } => expr_refs_check(expr, n),
        Expr::Alias { expr, .. } => expr_refs_check(expr, n),
        Expr::Cast { expr, .. } => expr_refs_check(expr, n),
    }
}

fn exprs_ref_check(es: &Vec<Expr>, n: &String) -> (r: bool)
    ensures
        r == exprs_ref(exprs_view(es@), n@),
{
    let m = es.len();
    let ghost ev = exprs_view(es@);
    let mut i: usize = 0;
    proof {
        assert(ev.skip(0) =~= ev);
    }
    while i < m
        invariant
            m == es@.len(),
            ev == exprs_view(es@),
            i <= m,
            exprs_ref(ev, n@) == exprs_ref(ev.skip(i as int), n@),
        decreases m - i,
    {
        proof {
            assert(ev.skip(i as int)[0] == ev[i as int]);
            assert(ev.skip(i as int).drop_first() =~= ev.skip(i + 1));
            assert(ev[i as int] == es@[i as int]@);
        }
        if expr_refs_check(&es[i], n) {
            return true;
        }
        i += 1;
    }
    proof {
        assert(ev.skip(m as int) =~= Seq::<ExprV>::empty());
    }
    false
}

fn needed_names_exec(df: &crate::frame::DataFrame, exprs: &Vec<Expr>) -> (r: Vec<String>)
    ensures
        names_view(r@) == needed_names(df@, exprs_view(exprs@)),
{
    let n = df.columns.len();
    let ghost dv = df@;
    let ghost ev = exprs_view(exprs@);
    let mut out: Vec<String> = Vec::new();
    let mut i: usize = 0;
    proof {
        assert(dv.skip(0) =~= dv);
        assert(names_view(out@) + needed_names(dv, ev) =~= needed_names(dv, ev));
    }
    while i < n
        invariant
            n == df.columns@.len(),
            dv == df@,
            ev == exprs_view(exprs@),
            i <= n,
            needed_names(dv, ev) == names_view(out@) + needed_names(dv.skip(i as int), ev),
        decreases n - i,
    {
        proof {
            assert(dv.skip(i as int)[0] == dv[i as int]);
            assert(dv.skip(i as int).drop_first() =~= dv.skip(i + 1));
        }
        let ghost prev = out@;
        if exprs_ref_check(exprs, df.columns[i].ca.get_name()) {
            out.push(df.columns[i].ca.get_name().clone());
            proof {
                assert forall|j: int| 0 <= j < prev.len() implies #[trigger] names_view(out@)[j]
                    == names_view(prev)[j] by {
                    assert(out@[j] == prev[j]);
                }
                assert(names_view(out@) =~= names_view(prev) + seq![
                    names_view(out@)[prev.len() as int],
                ]);
                assert(names_view(out@)[prev.len() as int] == dv[i as int].name);
                assert(names_view(out@) + needed_names(dv.skip(i + 1), ev) =~= names_view(prev) + (
                seq![dv[i as int].name] + needed_names(dv.skip(i + 1), ev)));
            }
        }
        i += 1;
    }
    proof {
        assert(dv.skip(n as int) =~= Seq::<crate::frame::ColV>::empty());
        assert(names_view(out@) + needed_names(dv.skip(n as int), ev) =~= names_view(out@));
    }
    out
}

/// Runs the projection pushdown pass, as `projdown_plan` says.
pub fn projection_pushdown_pass(p: LogicalPlan) -> (r: LogicalPlan)
    ensures
        r@ == projdown_plan(p@),
        crate::plan::plan_exec_wf(p) ==> crate::plan::plan_exec_wf(r),
    decreases p,
{
    let ghost p0 = p;
    match p {
        LogicalPlan::Scan { df, projection } => LogicalPlan::Scan { df, projection },
        LogicalPlan::Filter { input, predicate } => LogicalPlan::Filter {
            input: Box::new(projection_pushdown_pass(*input)),
            predicate,
        },
        LogicalPlan::Projection { input, exprs } => {
            let ghost inv = input@;
            let ghost in0 = *input;
            match *input {
                LogicalPlan::Scan { df, projection: None } => {
                    let needed = needed_names_exec(&df, &exprs);
                    let sc = LogicalPlan::Scan { df, projection: Some(needed) };
                    let ghost scv = sc@;
                    proof {
                        assert(crate::plan::plan_exec_wf(p0) ==> crate::plan::plan_exec_wf(in0));
                        assert(crate::plan::plan_exec_wf(in0) ==> df.wf());
                        assert(crate::plan::plan_exec_wf(p0) ==> crate::plan::plan_exec_wf(sc));
                    }
                    LogicalPlan::Projection { input: Box::new(sc), exprs }
                },
                other => LogicalPlan::Projection {
                    input: Box::new(projection_pushdown_pass(other)),
                    exprs,
                },
            }
        },
        LogicalPlan::Aggregate { input, keys, aggs } => LogicalPlan::Aggregate {
            input: Box::new(projection_pushdown_pass(*input)),
            keys,
            aggs,
        },
        LogicalPlan::Join { left, right, how, left_on, right_on } => LogicalPlan::Join {
            left: Box::new(projection_pushdown_pass(*left)),
            right: Box::new(projection_pushdown_pass(*right)),
            how,
            left_on,
            right_on,
        },
        LogicalPlan::Sort { input, by, reverse } => LogicalPlan::Sort {
            input: Box::new(projection_pushdown_pass(*input)),
            by,
            reverse,
        },
    }
}

} // verus!
