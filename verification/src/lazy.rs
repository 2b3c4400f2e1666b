//! The lazy frame: the fluent builder over logical plans, the toggleable
//! optimizer pipeline, and collection into a materialized table. Every
//! builder call takes the current frame by ownership and returns a new
//! one, so a consumed handle cannot be reused.
use vstd::prelude::*;

use crate::PolarsError;
use crate::exec::copy_df;
use crate::exec::run_plan;
use crate::exec::run_plan_exec;
use crate::expr::Expr;
use crate::expr::ExprV;
use crate::expr::expr_out_name;
use crate::frame::ColV;
use crate::frame::DataFrame;
use crate::optimizer::coerce_plan;
use crate::optimizer::predicate_pushdown_pass;
use crate::optimizer::projection_pushdown_pass;
use crate::optimizer::projdown_plan;
use crate::optimizer::pushdown_plan;
use crate::optimizer::type_coercion_pass;
use crate::plan::FieldV;
use crate::plan::JoinKind;
use crate::plan::LogicalPlan;
use crate::plan::PlanV;
use crate::plan::exprs_view;
use crate::plan::fmt_plan;
use crate::plan::names_view;
use crate::plan::plan_exec_wf;
use crate::plan::plan_fmt;
use crate::plan::plan_schema;

verus! {

/// The optimized form of a plan under the three toggles: type coercion,
/// then predicate pushdown, then projection pushdown, each only if on.
pub open spec fn optimize_spec(p: PlanV, tc: bool, pp: bool, jp: bool) -> PlanV {
    let p1 = if tc {
        coerce_plan(p)
    } else {
        p
    };
    let p2 = if pp {
        pushdown_plan(p1)
    } else {
        p1
    };
    if jp {
        projdown_plan(p2)
    } else {
        p2
    }
}

/// Whether some expression of the run claims this output name.
pub open spec fn name_overridden(exprs: Seq<ExprV>, n: Seq<char>) -> bool
    decreases exprs.len(),
{
    if exprs.len() == 0 {
        false
    } else {
        expr_out_name(exprs[0]) == n || name_overridden(exprs.drop_first(), n)
    }
}

/// The pass-through column references a `with_columns` keeps: one per
/// schema field whose name no new expression overrides.
pub open spec fn keep_cols(sch: Seq<FieldV>, exprs: Seq<ExprV>) -> Seq<ExprV>
    decreases sch.len(),
{
    if sch.len() == 0 {
        Seq::empty()
    } else {
        (if name_overridden(exprs, sch[0].name) {
            Seq::<ExprV>::empty()
        } else {
            seq![ExprV::Column(sch[0].name)]
        }) + keep_cols(sch.drop_first(), exprs)
    }
}

/// A deferred computation: a logical plan plus the optimizer toggles.
pub struct LazyFrame {
    pub logical_plan: LogicalPlan,
    pub type_coercion: bool,
    pub predicate_pushdown: bool,
    pub projection_pushdown: bool,
}

/// A pending group-by: it only becomes a plan once aggregations are
/// supplied.
pub struct LazyGroupBy {
    pub logical_plan: LogicalPlan,
    pub keys: Vec<String>,
    pub type_coercion: bool,
    pub predicate_pushdown: bool,
    pub projection_pushdown: bool,
}

impl DataFrame {
    /// Starts a lazy computation that scans this table.
    pub fn lazy(self) -> (r: LazyFrame)
        requires
            self.wf(),
        ensures
            r.wf(),
            r.logical_plan@ == (PlanV::Scan { df: self@, projection: None }),
            r.type_coercion && r.predicate_pushdown && r.projection_pushdown,
    {
        LazyFrame {
            logical_plan: LogicalPlan::Scan { df: self, projection: None },
            type_coercion: true,
            predicate_pushdown: true,
            projection_pushdown: true,
        }
    }
}

impl LazyFrame {
    pub open spec fn wf(&self) -> bool {
        plan_exec_wf(self.logical_plan)
    }

    pub open spec fn flags(&self) -> (bool, bool, bool) {
        (self.type_coercion, self.predicate_pushdown, self.projection_pushdown)
    }

    /// Keep the rows on which the predicate is true.
    pub fn filter(self, predicate: Expr) -> (r: LazyFrame)
        requires
            self.wf(),
        ensures
            r.wf(),
            r.logical_plan@ == (PlanV::Filter {
                input: Box::new(self.logical_plan@),
                predicate: predicate@,
            }),
            r.flags() == self.flags(),
    {
        LazyFrame {
            logical_plan: LogicalPlan::Filter {
                input: Box::new(self.logical_plan),
                predicate,
            },
            type_coercion: self.type_coercion,
            predicate_pushdown: self.predicate_pushdown,
            projection_pushdown: self.projection_pushdown,
        }
    }

    /// Replace the column set by the given expressions.
    pub fn select(self, exprs: Vec<Expr>) -> (r: LazyFrame)
        requires
            self.wf(),
        ensures
            r.wf(),
            r.logical_plan@ == (PlanV::Projection {
                input: Box::new(self.logical_plan@),
                exprs: exprs_view(exprs@),
            }),
            r.flags() == self.flags(),
    {
        LazyFrame {
            logical_plan: LogicalPlan::Projection {
                input: Box::new(self.logical_plan),
                exprs,
            },
            type_coercion: self.type_coercion,
            predicate_pushdown: self.predicate_pushdown,
            projection_pushdown: self.projection_pushdown,
        }
    }

    /// Stable sort by one column; nulls come last either way.
    pub fn sort(self, by_column: &str, reverse: bool) -> (r: LazyFrame)
        requires
            self.wf(),
        ensures
            r.wf(),
            r.logical_plan@ == (PlanV::Sort {
                input: Box::new(self.logical_plan@),
                by: by_column@,
                reverse,
            }),
            r.flags() == self.flags(),
    {
        LazyFrame {
            logical_plan: LogicalPlan::Sort {
                input: Box::new(self.logical_plan),
                by: by_column.to_owned(),
                reverse,
            },
            type_coercion: self.type_coercion,
            predicate_pushdown: self.predicate_pushdown,
            projection_pushdown: self.projection_pushdown,
        }
    }

    /// Begin a group-by on the named key columns.
    pub fn groupby(self, by: Vec<String>) -> (r: LazyGroupBy)
        requires
            self.wf(),
        ensures
            plan_exec_wf(r.logical_plan),
            r.logical_plan@ == self.logical_plan@,
            names_view(r.keys@) == names_view(by@),
            (r.type_coercion, r.predicate_pushdown, r.projection_pushdown) == self.flags(),
    {
        LazyGroupBy {
            logical_plan: self.logical_plan,
            keys: by,
            type_coercion: self.type_coercion,
            predicate_pushdown: self.predicate_pushdown,
            projection_pushdown: self.projection_pushdown,
        }
    }

    /// Equi-join with another frame, keeping only matched rows.
    pub fn inner_join(self, other: LazyFrame, left_on: Expr, right_on: Expr) -> (r: LazyFrame)
        requires
            self.wf(),
            other.wf(),
        ensures
            r.wf(),
            r.logical_plan@ == (PlanV::Join {
                left: Box::new(self.logical_plan@),
                right: Box::new(other.logical_plan@),
                how: JoinKind::Inner,
                left_on: left_on@,
                right_on: right_on@,
            }),
            r.flags() == self.flags(),
    {
        LazyFrame {
            logical_plan: LogicalPlan::Join {
                left: Box::new(self.logical_plan),
                right: Box::new(other.logical_plan),
                how: JoinKind::Inner,
                left_on,
                right_on,
            },
            type_coercion: self.type_coercion,
            predicate_pushdown: self.predicate_pushdown,
            projection_pushdown: self.projection_pushdown,
        }
    }

    /// Equi-join keeping every left row; an unmatched one gets nulls on
    /// the right.
    pub fn left_join(self, other: LazyFrame, left_on: Expr, right_on: Expr) -> (r: LazyFrame)
        requires
            self.wf(),
            other.wf(),
        ensures
            r.wf(),
            r.logical_plan@ == (PlanV::Join {
                left: Box::new(self.logical_plan@),
                right: Box::new(other.logical_plan@),
                how: JoinKind::Left,
                left_on: left_on@,
                right_on: right_on@,
            }),
            r.flags() == self.flags(),
    {
        LazyFrame {
            logical_plan: LogicalPlan::Join {
                left: Box::new(self.logical_plan),
                right: Box::new(other.logical_plan),
                how: JoinKind::Left,
                left_on,
                right_on,
            },
            type_coercion: self.type_coercion,
            predicate_pushdown: self.predicate_pushdown,
            projection_pushdown: self.projection_pushdown,
        }
    }

    /// Equi-join keeping every row of both sides.
    pub fn outer_join(self, other: LazyFrame, left_on: Expr, right_on: Expr) -> (r: LazyFrame)
        requires
            self.wf(),
            other.wf(),
        ensures
            r.wf(),
            r.logical_plan@ == (PlanV::Join {
                left: Box::new(self.logical_plan@),
                right: Box::new(other.logical_plan@),
                how: JoinKind::Outer,
                left_on: left_on@,
                right_on: right_on@,
            }),
            r.flags() == self.flags(),
    {
        LazyFrame {
            logical_plan: LogicalPlan::Join {
                left: Box::new(self.logical_plan),
                right: Box::new(other.logical_plan),
                how: JoinKind::Outer,
                left_on,
                right_on,
            },
            type_coercion: self.type_coercion,
            predicate_pushdown: self.predicate_pushdown,
            projection_pushdown: self.projection_pushdown,
        }
    }

    /// Switch the optimizer passes on or off, one flag each.
    pub fn optimization_toggle(
        self,
        type_coercion: bool,
        predicate_pushdown: bool,
        projection_pushdown: bool,
    ) -> (r: LazyFrame)
        requires
            self.wf(),
        ensures
            r.wf(),
            r.logical_plan@ == self.logical_plan@,
            r.flags() == (type_coercion, predicate_pushdown, projection_pushdown),
    {
        LazyFrame {
            logical_plan: self.logical_plan,
            type_coercion,
            predicate_pushdown,
            projection_pushdown,
        }
    }

    /// Add or replace columns, keeping the others in place.
    pub fn with_columns(self, exprs: Vec<Expr>) -> (r: LazyFrame)
        requires
            self.wf(),
        ensures
            r.wf(),
            r.logical_plan@ == (PlanV::Projection {
                input: Box::new(self.logical_plan@),
                exprs: (match plan_schema(self.logical_plan@) {
                    Some(sch) => keep_cols(sch, exprs_view(exprs@)) + exprs_view(exprs@),
                    None => exprs_view(exprs@),
                }),
            }),
            r.flags() == self.flags(),
    {
        let built: Vec<Expr> = match crate::optimizer::plan_schema_check(&self.logical_plan) {
            Some(sch) => {
                let ghost sv = crate::optimizer::fields_view(sch@);
                let ghost ev = exprs_view(exprs@);
                let mut out: Vec<Expr> = Vec::new();
                let nf = sch.len();
                let mut c: usize = 0;
                proof {
                    assert(sv.skip(0) =~= sv);
                    assert(exprs_view(out@) + keep_cols(sv, ev) =~= keep_cols(sv, ev));
                }
                while c < nf
                    invariant
                        nf == sch@.len(),
                        sv == crate::optimizer::fields_view(sch@),
                        ev == exprs_view(exprs@),
                        c <= nf,
                        keep_cols(sv, ev) == exprs_view(out@) + keep_cols(sv.skip(c as int), ev),
                    decreases nf - c,
                {
                    proof {
                        assert(sv.skip(c as int)[0] == sv[c as int]);
                        assert(sv.skip(c as int).drop_first() =~= sv.skip(c + 1));
                    }
                    let ghost prev = out@;
                    if !name_overridden_check(&exprs, &sch[c].name) {
                        out.push(Expr::Column(sch[c].name.clone()));
                        proof {
                            assert forall|k: int| 0 <= k < prev.len() implies #[trigger] exprs_view(
                                out@,
                            )[k] == exprs_view(prev)[k] by {
                                assert(out@[k] == prev[k]);
                            }
                            assert(exprs_view(out@)[prev.len() as int] == ExprV::Column(
                                sv[c as int].name,
                            ));
                            assert(exprs_view(out@) =~= exprs_view(prev) + seq![
                                ExprV::Column(sv[c as int].name),
                            ]);
                            assert(exprs_view(out@) + keep_cols(sv.skip(c + 1), ev) =~= exprs_view(
                                prev,
                            ) + (seq![ExprV::Column(sv[c as int].name)] + keep_cols(
                                sv.skip(c + 1),
                                ev,
                            )));
                        }
                    }
                    c += 1;
                }
                proof {
                    assert(sv.skip(nf as int) =~= Seq::<FieldV>::empty());
                    assert(exprs_view(out@) + Seq::<ExprV>::empty() =~= exprs_view(out@));
                }
                let ne = exprs.len();
                let ghost kept = exprs_view(out@);
                let mut e: usize = 0;
                while e < ne
                    invariant
                        ne == exprs@.len(),
                        ev == exprs_view(exprs@),
                        kept == exprs_view(out@.take(kept.len() as int)),
                        out@.len() == kept.len() + e,
                        e <= ne,
                        forall|k: int|
                            0 <= k < kept.len() ==> #[trigger] exprs_view(out@)[k] == kept[k],
                        forall|k: int|
                            0 <= k < e ==> #[trigger] exprs_view(out@)[kept.len() + k] == ev[k],
                    decreases ne - e,
                {
                    let ghost prev = out@;
                    out.push(exprs[e].dup());
                    proof {
                        assert forall|k: int| 0 <= k < prev.len() implies #[trigger] exprs_view(
                            out@,
                        )[k] == exprs_view(prev)[k] by {
                            assert(out@[k] == prev[k]);
                        }
                        assert(exprs_view(out@)[prev.len() as int] == ev[e as int]);
                        assert(out@.take(kept.len() as int) =~= prev.take(kept.len() as int));
                    }
                    e += 1;
                }
                proof {
                    assert forall|k: int| 0 <= k < out@.len() implies #[trigger] exprs_view(
                        out@,
                    )[k] == (kept + ev)[k] by {
                        if k >= kept.len() {
                            assert(exprs_view(out@)[kept.len() + (k - kept.len())] == ev[k
                                - kept.len()]);
                        }
                    }
                    assert(exprs_view(out@) =~= kept + ev);
                }
                out
            },
            None => exprs,
        };
        LazyFrame {
            logical_plan: LogicalPlan::Projection {
                input: Box::new(self.logical_plan),
                exprs: built,
            },
            type_coercion: self.type_coercion,
            predicate_pushdown: self.predicate_pushdown,
            projection_pushdown: self.projection_pushdown,
        }
    }

    /// Add or replace one column, keeping the others in place.
    pub fn with_column(self, expr: Expr) -> (r: LazyFrame)
        requires
            self.wf(),
        ensures
            r.wf(),
            r.logical_plan@ == (PlanV::Projection {
                input: Box::new(self.logical_plan@),
                exprs: (match plan_schema(self.logical_plan@) {
                    Some(sch) => keep_cols(sch, seq![expr@]) + seq![expr@],
                    None => seq![expr@],
                }),
            }),
            r.flags() == self.flags(),
    {
        let mut exprs: Vec<Expr> = Vec::new();
        exprs.push(expr);
        proof {
            assert(exprs_view(exprs@) =~= seq![exprs@[0]@]);
        }
        self.with_columns(exprs)
    }

    /// A human-readable rendering of the unoptimized plan.
    pub fn describe_plan(&self) -> (r: String)
        ensures
            r@ == plan_fmt(self.logical_plan@),
    {
        fmt_plan(&self.logical_plan)
    }

    /// A human-readable rendering of the plan after the enabled passes.
    pub fn describe_optimized_plan(&self) -> (r: String)
        requires
            self.wf(),
        ensures
            r@ == plan_fmt(optimize_spec(
                self.logical_plan@,
                self.type_coercion,
                self.predicate_pushdown,
                self.projection_pushdown,
            )),
    {
        let plan = clone_plan(&self.logical_plan);
        let optimized = optimize(
            plan,
            self.type_coercion,
            self.predicate_pushdown,
            self.projection_pushdown,
        );
        fmt_plan(&optimized)
    }

    /// A fresh frame over a structurally equal plan.
    pub fn clone(&self) -> (r: LazyFrame)
        requires
            self.wf(),
        ensures
            r.wf(),
            r.logical_plan@ == self.logical_plan@,
            r.flags() == self.flags(),
    {
        LazyFrame {
            logical_plan: clone_plan(&self.logical_plan),
            type_coercion: self.type_coercion,
            predicate_pushdown: self.predicate_pushdown,
            projection_pushdown: self.projection_pushdown,
        }
    }

    /// Optimizes the plan under the toggles and executes it bottom-up
    /// into a materialized table; the first operator failure aborts the
    /// whole run and is surfaced wrapped.
    pub fn collect(self) -> (r: Result<DataFrame, PolarsError>)
        requires
            self.wf(),
        ensures
            match r {
                Ok(df) => df.wf() && run_plan(optimize_spec(
                    self.logical_plan@,
                    self.type_coercion,
                    self.predicate_pushdown,
                    self.projection_pushdown,
                )) == Ok::<Seq<ColV>, PolarsError>(df@),
                Err(er) => er matches PolarsError::ExecutionAborted(inner) && run_plan(
                    optimize_spec(
                        self.logical_plan@,
                        self.type_coercion,
                        self.predicate_pushdown,
                        self.projection_pushdown,
                    ),
                ) == Err::<Seq<ColV>, PolarsError>(*inner),
            },
    {
        let optimized = optimize(
            self.logical_plan,
            self.type_coercion,
            self.predicate_pushdown,
            self.projection_pushdown,
        );
        match run_plan_exec(&optimized) {
            Ok(df) => Ok(df),
            Err(e) => Err(PolarsError::ExecutionAborted(Box::new(e))),
        }
    }
}

impl LazyGroupBy {
    /// Supply the aggregations: the pending group-by becomes a plan.
    pub fn agg(self, aggs: Vec<Expr>) -> (r: LazyFrame)
        requires
            plan_exec_wf(self.logical_plan),
        ensures
            r.wf(),
            r.logical_plan@ == (PlanV::Aggregate {
                input: Box::new(self.logical_plan@),
                keys: names_view(self.keys@),
                aggs: exprs_view(aggs@),
            }),
            r.flags() == (self.type_coercion, self.predicate_pushdown, self.projection_pushdown),
    {
        LazyFrame {
            logical_plan: LogicalPlan::Aggregate {
                input: Box::new(self.logical_plan),
                keys: self.keys,
                aggs,
            },
            type_coercion: self.type_coercion,
            predicate_pushdown: self.predicate_pushdown,
            projection_pushdown: self.projection_pushdown,
        }
    }
}


/// Schema preservation, combined: whatever subset of the three passes
/// runs, the optimized plan's output schema — its column names and
/// types — equals the unoptimized plan's.
pub proof fn lemma_optimize_schema(p: PlanV, tc: bool, pp: bool, jp: bool)
    ensures
        plan_schema(optimize_spec(p, tc, pp, jp)) == plan_schema(p),
{
    if tc {
        crate::optimizer::lemma_coerce_plan_schema(p);
    }
    let p1 = if tc {
        coerce_plan(p)
    } else {
        p
    };
    if pp {
        crate::optimizer::lemma_pushdown_schema(p1);
    }
    let p2 = if pp {
        pushdown_plan(p1)
    } else {
        p1
    };
    if jp {
        crate::optimizer::lemma_projdown_schema(p2);
    }
}

/// Runs the enabled passes in their fixed order.
pub fn optimize(p: LogicalPlan, tc: bool, pp: bool, jp: bool) -> (r: LogicalPlan)
    requires
        plan_exec_wf(p),
    ensures
        plan_exec_wf(r),
        r@ == optimize_spec(p@, tc, pp, jp),
{
    let p1 = if tc {
        type_coercion_pass(p)
    } else {
        p
    };
    let p2 = if pp {
        predicate_pushdown_pass(p1)
    } else {
        p1
    };
    if jp {
        projection_pushdown_pass(p2)
    } else {
        p2
    }
}

fn name_overridden_check(exprs: &Vec<Expr>, n: &String) -> (r: bool)
    ensures
        r == name_overridden(exprs_view(exprs@), n@),
{
    let m = exprs.len();
    let ghost ev = exprs_view(exprs@);
    let mut i: usize = 0;
    proof {
        assert(ev.skip(0) =~= ev);
    }
    while i < m
        invariant
            m == exprs@.len(),
            ev == exprs_view(exprs@),
            i <= m,
            name_overridden(ev, n@) == name_overridden(ev.skip(i as int), n@),
        decreases m - i,
    {
        proof {
            assert(ev.skip(i as int)[0] == ev[i as int]);
            assert(ev.skip(i as int).drop_first() =~= ev.skip(i + 1));
            assert(ev[i as int] == exprs@[i as int]@);
        }
        let nm = crate::optimizer::expr_output_name(&exprs[i]);
        if nm == *n {
            return true;
        }
        i += 1;
    }
    proof {
        assert(ev.skip(m as int) =~= Seq::<ExprV>::empty());
    }
    false
}

/// A structurally equal copy of a plan.
pub fn clone_plan(p: &LogicalPlan) -> (r: LogicalPlan)
    requires
        plan_exec_wf(*p),
    ensures
        plan_exec_wf(r),
        r@ == p@,
    decreases *p,
{
    match p {
        LogicalPlan::Scan { df, projection } => {
            let pr: Option<Vec<String>> = match projection {
                Some(ns) => {
                    let m = ns.len();
                    let mut out: Vec<String> = Vec::new();
                    let mut i: usize = 0;
                    while i < m
                        invariant
                            m == ns@.len(),
                            i <= m,
                            out@.len() == i,
                            forall|j: int| 0 <= j < i ==> (#[trigger] out@[j])@ == ns@[j]@,
                        decreases m - i,
                    {
                        out.push(ns[i].clone());
                        i += 1;
                    }
                    proof {
                        assert(names_view(out@) =~= names_view(ns@));
                    }
                    Some(out)
                },
                None => None,
            };
            LogicalPlan::Scan { df: copy_df(df), projection: pr }
        },
        LogicalPlan::Filter { input, predicate } => LogicalPlan::Filter {
            input: Box::new(clone_plan(input)),
            predicate: predicate.dup(),
        },
        LogicalPlan::Projection { input, exprs } => LogicalPlan::Projection {
            input: Box::new(clone_plan(input)),
            exprs: clone_exprs(exprs),
        },
        LogicalPlan::Aggregate { input, keys, aggs } => {
            let m = keys.len();
            let mut ks: Vec<String> = Vec::new();
            let mut i: usize = 0;
            while i < m
                invariant
                    m == keys@.len(),
                    i <= m,
                    ks@.len() == i,
                    forall|j: int| 0 <= j < i ==> (#[trigger] ks@[j])@ == keys@[j]@,
                decreases m - i,
            {
                ks.push(keys[i].clone());
                i += 1;
            }
            proof {
                assert(names_view(ks@) =~= names_view(keys@));
            }
            LogicalPlan::Aggregate {
                input: Box::new(clone_plan(input)),
                keys: ks,
                aggs: clone_exprs(aggs),
            }
        },
        LogicalPlan::Join { left, right, how, left_on, right_on } => LogicalPlan::Join {
            left: Box::new(clone_plan(left)),
            right: Box::new(clone_plan(right)),
            how: *how,
            left_on: left_on.dup(),
            right_on: right_on.dup(),
        },
        LogicalPlan::Sort { input, by, reverse } => LogicalPlan::Sort {
            input: Box::new(clone_plan(input)),
            by: by.clone(),
            reverse: *reverse,
        },
    }
}

fn clone_exprs(es: &Vec<Expr>) -> (r: Vec<Expr>)
    ensures
        exprs_view(r@) == exprs_view(es@),
{
    let m = es.len();
    let mut out: Vec<Expr> = Vec::new();
    let mut i: usize = 0;
    while i < m
        invariant
            m == es@.len(),
            i <= m,
            out@.len() == i,
            forall|j: int| 0 <= j < i ==> (#[trigger] out@[j])@ == es@[j]@,
        decreases m - i,
    {
        out.push(es[i].dup());
        i += 1;
    }
    proof {
        assert(exprs_view(out@) =~= exprs_view(es@));
    }
    out
}

} // verus!
