//! Series and DataFrame: a named, typed column of cells, and an ordered
//! collection of equally long, uniquely named columns.
use vstd::prelude::*;

use crate::PolarsError;
use crate::chunked::ChunkedArray;
use crate::chunked::opt_view;
use crate::value::DataType;
use crate::value::Value;
use crate::value::ValueV;

verus! {

/// The mathematical view of one column.
#[verifier::ext_equal]
pub struct ColV {
    pub name: Seq<char>,
    pub dtype: DataType,
    pub cells: Seq<Option<ValueV>>,
}

/// A typed column: its declared physical type and its chunked cells.
pub struct Series {
    pub dtype: DataType,
    pub ca: ChunkedArray<Value>,
}

impl Series {
    pub open spec fn wf(&self) -> bool {
        self.ca.wf()
    }

    pub open spec fn view_col(&self) -> ColV {
        ColV { name: self.ca.name_view(), dtype: self.dtype, cells: self.ca.contents() }
    }

    /// A column of 64-bit integers, no nulls.
    pub fn new_i64(name: &str, vals: Vec<i64>) -> (r: Series)
        ensures
            r.wf(),
            r.view_col().name == name@,
            r.view_col().dtype == DataType::Int64,
            r.view_col().cells == vals@.map_values(|x: i64| Some(ValueV::Int64(x))),
    {
        let ghost vs = vals@;
        let n = vals.len();
        let mut cells: Vec<Value> = Vec::new();
        let mut i: usize = 0;
        while i < n
            invariant
                n == vs.len(),
                vals@ == vs,
                i <= n,
                cells@.len() == i,
                forall|j: int| 0 <= j < i ==> #[trigger] cells@[j]@ == ValueV::Int64(vs[j]),
            decreases n - i,
        {
            cells.push(Value::Int64(vals[i]));
            i += 1;
        }
        let r = Series { dtype: DataType::Int64, ca: ChunkedArray::new_from_vec(name, cells) };
        proof {
            assert(r.view_col().cells =~= vs.map_values(|x: i64| Some(ValueV::Int64(x))));
        }
        r
    }

    /// A column of booleans, no nulls.
    pub fn new_bool(name: &str, vals: Vec<bool>) -> (r: Series)
        ensures
            r.wf(),
            r.view_col().name == name@,
            r.view_col().dtype == DataType::Boolean,
            r.view_col().cells == vals@.map_values(|x: bool| Some(ValueV::Bool(x))),
    {
        let ghost vs = vals@;
        let n = vals.len();
        let mut cells: Vec<Value> = Vec::new();
        let mut i: usize = 0;
        while i < n
            invariant
                n == vs.len(),
                vals@ == vs,
                i <= n,
                cells@.len() == i,
                forall|j: int| 0 <= j < i ==> #[trigger] cells@[j]@ == ValueV::Bool(vs[j]),
            decreases n - i,
        {
            cells.push(Value::Bool(vals[i]));
            i += 1;
        }
        let r = Series { dtype: DataType::Boolean, ca: ChunkedArray::new_from_vec(name, cells) };
        proof {
            assert(r.view_col().cells =~= vs.map_values(|x: bool| Some(ValueV::Bool(x))));
        }
        r
    }

    /// A column of text values, no nulls.
    pub fn new_str(name: &str, vals: Vec<String>) -> (r: Series)
        ensures
            r.wf(),
            r.view_col().name == name@,
            r.view_col().dtype == DataType::Utf8,
            r.view_col().cells == vals@.map_values(|x: String| Some(ValueV::Str(x@))),
    {
        let ghost vs = vals@;
        let n = vals.len();
        let mut cells: Vec<Value> = Vec::new();
        let mut i: usize = 0;
        while i < n
            invariant
                n == vs.len(),
                vals@ == vs,
                i <= n,
                cells@.len() == i,
                forall|j: int| 0 <= j < i ==> #[trigger] cells@[j]@ == ValueV::Str(vs[j]@),
            decreases n - i,
        {
            cells.push(Value::Str(vals[i].clone()));
            i += 1;
        }
        let r = Series { dtype: DataType::Utf8, ca: ChunkedArray::new_from_vec(name, cells) };
        proof {
            assert(r.view_col().cells =~= vs.map_values(|x: String| Some(ValueV::Str(x@))));
        }
        r
    }

    /// A column of nullable cells with a declared type.
    pub fn new_opt(name: &str, dtype: DataType, vals: &Vec<Option<Value>>) -> (r: Series)
        ensures
            r.wf(),
            r.view_col().name == name@,
            r.view_col().dtype == dtype,
            r.view_col().cells == vals@.map_values(|c: Option<Value>| opt_view(c)),
    {
        Series { dtype, ca: ChunkedArray::new_from_opt_vec(name, vals) }
    }

    pub fn len(&self) -> (n: usize)
        requires
            self.wf(),
        ensures
            n == self.view_col().cells.len(),
    {
        self.ca.len()
    }
}

/// The views of a run of columns.
pub open spec fn cols_view(s: Seq<Series>) -> Seq<ColV> {
    s.map_values(|c: Series| c.view_col())
}

/// The number of rows a table with these columns has.
pub open spec fn df_height(df: Seq<ColV>) -> int {
    if df.len() == 0 {
        0
    } else {
        df[0].cells.len() as int
    }
}

/// Every column as long as the first, and no name used twice.
pub open spec fn df_wf_v(df: Seq<ColV>) -> bool {
    &&& forall|i: int| 0 <= i < df.len() ==> (#[trigger] df[i].cells).len() == df_height(df)
    &&& forall|i: int, j: int| 0 <= i < j < df.len() ==> df[i].name != df[j].name
}

/// The first column of this name, if any.
pub open spec fn df_find(df: Seq<ColV>, name: Seq<char>) -> Option<int>
    decreases df.len(),
{
    if df.len() == 0 {
        None
    } else if df[0].name == name {
        Some(0)
    } else {
        match df_find(df.drop_first(), name) {
            Some(i) => Some(i + 1),
            None => None,
        }
    }
}

pub proof fn lemma_df_find(df: Seq<ColV>, name: Seq<char>)
    ensures
        match df_find(df, name) {
            Some(i) => 0 <= i < df.len() && df[i].name == name && forall|j: int|
                0 <= j < i ==> (#[trigger] df[j]).name != name,
            None => forall|j: int| 0 <= j < df.len() ==> (#[trigger] df[j]).name != name,
        },
    decreases df.len(),
{
    if df.len() != 0 && df[0].name != name {
        lemma_df_find(df.drop_first(), name);
        assert forall|j: int| 1 <= j < df.len() implies df[j] == df.drop_first()[j - 1] by {}
    }
}

/// One row selection per output row: `Some(j)` takes source row `j`,
/// `None` yields an all-null row.
pub open spec fn take_cells(cells: Seq<Option<ValueV>>, idxs: Seq<Option<int>>) -> Seq<
    Option<ValueV>,
> {
    Seq::new(
        idxs.len(),
        |k: int|
            match idxs[k] {
                Some(j) => cells[j],
                None => None,
            },
    )
}

/// The whole table with its rows selected by `idxs`, column by column.
pub open spec fn df_take(df: Seq<ColV>, idxs: Seq<Option<int>>) -> Seq<ColV> {
    df.map_values(
        |c: ColV| ColV { name: c.name, dtype: c.dtype, cells: take_cells(c.cells, idxs) },
    )
}

pub open spec fn idxs_view(s: Seq<Option<usize>>) -> Seq<Option<int>> {
    s.map_values(
        |o: Option<usize>|
            match o {
                Some(u) => Some(u as int),
                None => None,
            },
    )
}

/// An ordered mapping from unique column name to column, all columns of
/// one length.
pub struct DataFrame {
    pub columns: Vec<Series>,
}

impl View for DataFrame {
    type V = Seq<ColV>;

    open spec fn view(&self) -> Seq<ColV> {
        cols_view(self.columns@)
    }
}

impl DataFrame {
    pub open spec fn wf(&self) -> bool {
        &&& forall|i: int| 0 <= i < self.columns@.len() ==> (#[trigger] self.columns@[i]).wf()
        &&& df_wf_v(self@)
    }

    /// An empty table: no columns, no rows.
    pub fn new_empty() -> (r: DataFrame)
        ensures
            r.wf(),
            r@ == Seq::<ColV>::empty(),
    {
        let r = DataFrame { columns: Vec::new() };
        proof {
            assert(r@ =~= Seq::<ColV>::empty());
        }
        r
    }

    /// Assembles a table from columns; refuses unequal lengths and
    /// repeated names.
    pub fn new(columns: Vec<Series>) -> (r: Result<DataFrame, PolarsError>)
        requires
            forall|i: int| 0 <= i < columns@.len() ==> (#[trigger] columns@[i]).wf(),
        ensures
            match r {
                Ok(df) => df.wf() && df@ == cols_view(columns@),
                Err(e) => {
                    ||| (e == PolarsError::ShapeMismatch && !(forall|i: int|
                        0 <= i < columns@.len() ==> (#[trigger] columns@[i].view_col().cells).len()
                            == df_height(cols_view(columns@))))
                    ||| (e == PolarsError::DuplicateColumn && exists|i: int, j: int|
                        0 <= i < j < columns@.len() && (#[trigger] columns@[i].view_col().name)
                            == (#[trigger] columns@[j].view_col().name))
                },
            },
    {
        let n = columns.len();
        let ghost cv = cols_view(columns@);
        proof {
            assert(cv.len() == n);
            assert(forall|i: int| 0 <= i < n ==> cv[i] == (#[trigger] columns@[i]).view_col());
        }
        if n > 0 {
            let h = columns[0].len();
            let mut i: usize = 1;
            while i < n
                invariant
                    n == columns@.len(),
                    cv == cols_view(columns@),
                    forall|k: int| 0 <= k < n ==> (#[trigger] columns@[k]).wf(),
                    h == df_height(cv),
                    1 <= i <= n,
                    forall|k: int| 0 <= k < i ==> (#[trigger] cv[k].cells).len() == h,
                decreases n - i,
            {
                if columns[i].len() != h {
                    return Err(PolarsError::ShapeMismatch);
                }
                i += 1;
            }
        }
        let mut i: usize = 0;
        while i < n
            invariant
                n == columns@.len(),
                cv == cols_view(columns@),
                forall|k: int| 0 <= k < n ==> (#[trigger] columns@[k]).wf(),
                i <= n,
                forall|k1: int, k2: int| 0 <= k1 < k2 < n && k2 < i ==> cv[k1].name != cv[k2].name,
            decreases n - i,
        {
            let mut j: usize = 0;
            while j < i
                invariant
                    n == columns@.len(),
                    cv == cols_view(columns@),
                    forall|k: int| 0 <= k < n ==> (#[trigger] columns@[k]).wf(),
                    j <= i < n,
                    forall|k: int| 0 <= k < j ==> (#[trigger] cv[k].name) != cv[i as int].name,
                decreases i - j,
            {
                if *columns[j].ca.get_name() == *columns[i].ca.get_name() {
                    proof {
                        assert(cv[j as int].name == cv[i as int].name);
                        assert(columns@[j as int].view_col().name == columns@[i as int].view_col().name);
                    }
                    return Err(PolarsError::DuplicateColumn);
                }
                j += 1;
            }
            i += 1;
        }
        let df = DataFrame { columns };
        Ok(df)
    }

    pub fn width(&self) -> (n: usize)
        ensures
            n == self@.len(),
    {
        self.columns.len()
    }

    pub fn height(&self) -> (n: usize)
        requires
            self.wf(),
        ensures
            n == df_height(self@),
    {
        if self.columns.len() == 0 {
            0
        } else {
            self.columns[0].len()
        }
    }

    /// The first column of this name.
    pub fn find_col(&self, name: &String) -> (r: Option<usize>)
        ensures
            match r {
                Some(i) => df_find(self@, name@) == Some(i as int),
                None => df_find(self@, name@) is None,
            },
    {
        proof {
            lemma_df_find(self@, name@);
        }
        let n = self.columns.len();
        let mut i: usize = 0;
        while i < n
            invariant
                n == self.columns@.len(),
                i <= n,
                forall|j: int| 0 <= j < i ==> (#[trigger] self@[j]).name != name@,
            decreases n - i,
        {
            if *self.columns[i].ca.get_name() == *name {
                proof {
                    assert(self@[i as int].name == name@);
                    lemma_df_find(self@, name@);
                    assert(match df_find(self@, name@) {
                        Some(k) => k == i as int,
                        None => false,
                    });
                }
                return Some(i);
            }
            i += 1;
        }
        None
    }

    /// The rows selected by `idxs`, in order; a `None` row is all null.
    pub fn take_opt(&self, idxs: &Vec<Option<usize>>) -> (r: DataFrame)
        requires
            self.wf(),
            forall|k: int|
                0 <= k < idxs@.len() ==> match #[trigger] idxs@[k] {
                    Some(j) => j < df_height(self@),
                    None => true,
                },
        ensures
            r.wf(),
            r@ == df_take(self@, idxs_view(idxs@)),
    {
        let ncols = self.columns.len();
        let nout = idxs.len();
        let mut out: Vec<Series> = Vec::new();
        let mut c: usize = 0;
        while c < ncols
            invariant
                self.wf(),
                ncols == self.columns@.len(),
                forall|k: int|
                    0 <= k < idxs@.len() ==> match #[trigger] idxs@[k] {
                        Some(j) => j < df_height(self@),
                        None => true,
                    },
                nout == idxs@.len(),
                c <= ncols,
                out@.len() == c,
                forall|k: int|
                    0 <= k < c ==> (#[trigger] out@[k]).wf() && out@[k].view_col() == df_take(
                        self@,
                        idxs_view(idxs@),
                    )[k],
            decreases ncols - c,
        {
            let cells = self.columns[c].ca.to_opt_vec();
            proof {
                assert(cells@.map_values(|x: Option<Value>| opt_view(x)) == self@[c as int].cells);
            }
            let mut picked: Vec<Option<Value>> = Vec::new();
            let mut k: usize = 0;
            while k < nout
                invariant
                    self.wf(),
                    ncols == self.columns@.len(),
                    c < ncols,
                    nout == idxs@.len(),
                    forall|t: int|
                        0 <= t < idxs@.len() ==> match #[trigger] idxs@[t] {
                            Some(j) => j < df_height(self@),
                            None => true,
                        },
                    cells@.map_values(|x: Option<Value>| opt_view(x)) == self@[c as int].cells,
                    cells@.len() == self@[c as int].cells.len(),
                    k <= nout,
                    picked@.len() == k,
                    forall|t: int|
                        0 <= t < k ==> opt_view(#[trigger] picked@[t]) == take_cells(
                            self@[c as int].cells,
                            idxs_view(idxs@),
                        )[t],
                decreases nout - k,
            {
                match &idxs[k] {
                    Some(j) => {
                        let cell: Option<Value> = match &cells[*j] {
                            Some(v) => Some(v.dup()),
                            None => None,
                        };
                        picked.push(cell);
                    },
                    None => picked.push(None),
                }
                k += 1;
            }
            let name = self.columns[c].ca.get_name().clone();
            let s = Series::new_opt(name.as_str(), self.columns[c].dtype, &picked);
            proof {
                assert(s.view_col().cells =~= take_cells(
                    self@[c as int].cells,
                    idxs_view(idxs@),
                ));
                assert(s.view_col() =~= df_take(self@, idxs_view(idxs@))[c as int]);
            }
            out.push(s);
            c += 1;
        }
        let r = DataFrame { columns: out };
        proof {
            assert(r@ =~= df_take(self@, idxs_view(idxs@)));
            assert(df_wf_v(r@)) by {
                assert(forall|i: int|
                    0 <= i < r@.len() ==> (#[trigger] r@[i].cells).len() == idxs_view(
                        idxs@,
                    ).len());
            }
        }
        r
    }
}

} // verus!
