//! An in-process analytical query engine over chunked, nullable, columnar
//! data: a lazy logical-plan builder, composable rewrite passes, and an
//! executor that lowers the optimized plan into physical operators, with a
//! unit-aware temporal value model for the columns.
use vstd::prelude::*;

pub mod chunked;
pub mod exec;
pub mod expr;
pub mod frame;
pub mod lazy;
pub mod optimizer;
pub mod plan;
pub mod temporal;
pub mod temporal_chunked;
pub mod value;

verus! {

/// The failure kinds that plan building and execution can surface.
/// Per-element parse failures are not here: they recover locally into nulls.
#[derive(Debug, PartialEq)]
pub enum PolarsError {
    /// An expression referenced a column name absent from the schema.
    UnknownColumn,
    /// An operator was applied to incompatible physical types.
    TypeMismatch,
    /// Contiguous-slice access was asked of an array of more than one chunk.
    NotContiguous,
    /// Columns of unequal length were put in one table.
    ShapeMismatch,
    /// One column name was used twice in a table.
    DuplicateColumn,
    /// A null entry stood where a plain value was required.
    NullValue,
    /// The two key expressions of an equi-join resolved to different types.
    JoinKeyTypeMismatch,
    /// Wraps the first operator failure met while evaluating a plan.
    ExecutionAborted(Box<PolarsError>),
    /// A foreign I/O adapter failed; carries the adapter's own message.
    AdapterIo(String),
}

} // verus!
