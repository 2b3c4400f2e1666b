//! The chunked array: a named, typed column stored as one or more
//! contiguous buffers ("chunks"), each with an optional validity bitmap.
//! The whole array reads as one flat sequence of nullable cells.
use vstd::prelude::*;

use crate::PolarsError;
use crate::value::Value;

verus! {

/// An element a chunked array can store: it has a mathematical view, a
/// view-preserving copy, and a throwaway backing value for null slots
/// (the storage under a null is unspecified and never read).
pub trait Element: View + Sized {
    fn dup_elem(&self) -> (r: Self)
        ensures
            r@ == self@,
    ;

    fn fill_elem() -> Self;
}

impl Element for i64 {
    fn dup_elem(&self) -> (r: i64) {
        *self
    }

    fn fill_elem() -> i64 {
        0
    }
}

impl Element for Value {
    fn dup_elem(&self) -> (r: Value) {
        self.dup()
    }

    fn fill_elem() -> Value {
        Value::Int64(0)
    }
}

/// The view of a nullable slot.
pub open spec fn opt_view<T: View>(c: Option<T>) -> Option<T::V> {
    match c {
        Some(v) => Some(v@),
        None => None,
    }
}

/// One contiguous buffer plus its optional validity bitmap. A clear bit
/// marks a null; the backing value under it is unspecified.
pub struct Chunk<T> {
    pub values: Vec<T>,
    pub validity: Option<Vec<bool>>,
}

pub open spec fn chunk_wf<T>(c: Chunk<T>) -> bool {
    match c.validity {
        Some(bits) => bits@.len() == c.values@.len(),
        None => true,
    }
}

/// A chunk as a flat sequence of nullable cells.
pub open spec fn chunk_view<T: View>(c: Chunk<T>) -> Seq<Option<T::V>> {
    Seq::new(
        c.values@.len(),
        |i: int|
            match c.validity {
                Some(bits) => if bits@[i] {
                    Some(c.values@[i]@)
                } else {
                    None
                },
                None => Some(c.values@[i]@),
            },
    )
}

/// The cells of a run of chunks, in order.
pub open spec fn chunks_view<T: View>(cs: Seq<Chunk<T>>) -> Seq<Option<T::V>>
    decreases cs.len(),
{
    if cs.len() == 0 {
        Seq::empty()
    } else {
        chunk_view(cs[0]) + chunks_view(cs.drop_first())
    }
}

pub proof fn lemma_chunks_view_single<T: View>(c: Chunk<T>)
    ensures
        chunks_view(seq![c]) == chunk_view(c),
{
    assert(seq![c].drop_first() =~= Seq::<Chunk<T>>::empty());
    assert(chunks_view(seq![c].drop_first()) =~= Seq::<Option<T::V>>::empty());
    assert(chunks_view(seq![c]) =~= chunk_view(c));
}

pub proof fn lemma_chunks_view_concat<T: View>(a: Seq<Chunk<T>>, b: Seq<Chunk<T>>)
    ensures
        chunks_view(a + b) == chunks_view(a) + chunks_view(b),
    decreases a.len(),
{
    if a.len() == 0 {
        assert(a + b =~= b);
        assert(chunks_view(a) + chunks_view(b) =~= chunks_view(b));
    } else {
        assert((a + b).drop_first() =~= a.drop_first() + b);
        lemma_chunks_view_concat(a.drop_first(), b);
        assert(chunks_view(a + b) =~= chunks_view(a) + chunks_view(b));
    }
}

/// `chunks_view` split at chunk `k`: the cells before it, its own cells,
/// and the cells after it.
pub proof fn lemma_chunks_view_step<T: View>(cs: Seq<Chunk<T>>, k: int)
    requires
        0 <= k < cs.len(),
    ensures
        chunks_view(cs.take(k + 1)) == chunks_view(cs.take(k)) + chunk_view(cs[k]),
        chunks_view(cs) == chunks_view(cs.take(k + 1)) + chunks_view(cs.skip(k + 1)),
        chunks_view(cs) == chunks_view(cs.take(k)) + chunk_view(cs[k]) + chunks_view(
            cs.skip(k + 1),
        ),
{
    assert(cs.take(k + 1) =~= cs.take(k) + seq![cs[k]]);
    lemma_chunks_view_concat(cs.take(k), seq![cs[k]]);
    lemma_chunks_view_single(cs[k]);
    assert(cs =~= cs.take(k + 1) + cs.skip(k + 1));
    lemma_chunks_view_concat(cs.take(k + 1), cs.skip(k + 1));
}

/// A named, typed column: an ordered run of chunks read as one sequence.
pub struct ChunkedArray<T> {
    pub name: String,
    pub chunks: Vec<Chunk<T>>,
}

impl<T: Element> ChunkedArray<T> {
    /// Every chunk's bitmap matches its buffer, and the logical length
    /// fits the machine.
    pub open spec fn wf(&self) -> bool {
        &&& forall|i: int| 0 <= i < self.chunks@.len() ==> chunk_wf(#[trigger] self.chunks@[i])
        &&& self.contents().len() <= usize::MAX
    }

    /// The array as one flat sequence of nullable cells.
    pub open spec fn contents(&self) -> Seq<Option<T::V>> {
        chunks_view(self.chunks@)
    }

    pub open spec fn name_view(&self) -> Seq<char> {
        self.name@
    }

    pub fn get_name(&self) -> (r: &String)
        ensures
            r@ == self.name_view(),
    {
        &self.name
    }

    /// Builds a single-chunk array from a flat sequence with no nulls.
    pub fn new_from_vec(name: &str, values: Vec<T>) -> (r: Self)
        ensures
            r.wf(),
            r.name_view() == name@,
            r.contents() == values@.map_values(|v: T| Some(v@)),
    {
        let ghost vals = values@;
        let n = values.len();
        let chunk = Chunk { values, validity: None };
        let r = ChunkedArray { name: name.to_owned(), chunks: vec![chunk] };
        proof {
            assert(r.chunks@ =~= seq![r.chunks@[0]]);
            lemma_chunks_view_single(r.chunks@[0]);
            assert(r.contents() =~= vals.map_values(|v: T| Some(v@)));
        }
        r
    }

    /// Builds a single-chunk array from a sequence of optional values;
    /// a `None` becomes a null cell.
    pub fn new_from_opt_vec(name: &str, values: &Vec<Option<T>>) -> (r: Self)
        ensures
            r.wf(),
            r.name_view() == name@,
            r.contents() == values@.map_values(|c: Option<T>| opt_view(c)),
    {
        let n = values.len();
        let mut buf: Vec<T> = Vec::new();
        let mut bits: Vec<bool> = Vec::new();
        let mut i: usize = 0;
        while i < n
            invariant
                n == values@.len(),
                i <= n,
                buf@.len() == i,
                bits@.len() == i,
                forall|j: int|
                    0 <= j < i ==> (if bits@[j] {
                        Some(buf@[j]@)
                    } else {
                        None
                    }) == opt_view(#[trigger] values@[j]),
            decreases n - i,
        {
            match &values[i] {
                Some(v) => {
                    buf.push(v.dup_elem());
                    bits.push(true);
                },
                None => {
                    buf.push(T::fill_elem());
                    bits.push(false);
                },
            }
            i += 1;
        }
        let chunk = Chunk { values: buf, validity: Some(bits) };
        let r = ChunkedArray { name: name.to_owned(), chunks: vec![chunk] };
        proof {
            assert(r.chunks@ =~= seq![r.chunks@[0]]);
            lemma_chunks_view_single(r.chunks@[0]);
            assert(r.contents() =~= values@.map_values(|c: Option<T>| opt_view(c)));
        }
        r
    }

    /// The total logical length: the sum of the chunk lengths.
    pub fn len(&self) -> (n: usize)
        requires
            self.wf(),
        ensures
            n == self.contents().len(),
    {
        let mut acc: usize = 0;
        let mut k: usize = 0;
        let n_chunks = self.chunks.len();
        while k < n_chunks
            invariant
                self.wf(),
                n_chunks == self.chunks@.len(),
                k <= n_chunks,
                acc == chunks_view(self.chunks@.take(k as int)).len(),
            decreases n_chunks - k,
        {
            proof {
                lemma_chunks_view_step(self.chunks@, k as int);
            }
            acc += self.chunks[k].values.len();
            k += 1;
        }
        proof {
            assert(self.chunks@.take(n_chunks as int) =~= self.chunks@);
        }
        acc
    }

    /// Random access: `None` out of range, `Some(None)` a null cell,
    /// `Some(Some(v))` a plain value.
    pub fn get(&self, i: usize) -> (r: Option<Option<T>>)
        requires
            self.wf(),
        ensures
            match r {
                None => i >= self.contents().len(),
                Some(c) => i < self.contents().len() && opt_view(c) == self.contents()[i as int],
            },
    {
        let mut idx: usize = i;
        let mut k: usize = 0;
        let n_chunks = self.chunks.len();
        while k < n_chunks
            invariant
                self.wf(),
                n_chunks == self.chunks@.len(),
                k <= n_chunks,
                idx <= i,
                i - idx == chunks_view(self.chunks@.take(k as int)).len(),
            decreases n_chunks - k,
        {
            let chunk_len = self.chunks[k].values.len();
            proof {
                lemma_chunks_view_step(self.chunks@, k as int);
            }
            if idx < chunk_len {
                let cell: Option<T> = match &self.chunks[k].validity {
                    Some(bits) => {
                        if bits[idx] {
                            Some(self.chunks[k].values[idx].dup_elem())
                        } else {
                            None
                        }
                    },
                    None => Some(self.chunks[k].values[idx].dup_elem()),
                };
                proof {
                    assert(self.contents()[i as int] == chunk_view(self.chunks@[k as int])[idx as int]);
                }
                return Some(cell);
            }
            idx -= chunk_len;
            k += 1;
        }
        proof {
            assert(self.chunks@.take(n_chunks as int) =~= self.chunks@);
        }
        None
    }

    /// Contiguous access: the values of the single chunk, or
    /// `NotContiguous` for a multi-chunk array, or `NullValue` if a null
    /// sits where a plain value is required.
    pub fn cont_slice(&self) -> (r: Result<Vec<T>, PolarsError>)
        requires
            self.wf(),
        ensures
            match r {
                Ok(v) => self.chunks@.len() == 1 && v@.map_values(|x: T| Some(x@))
                    == self.contents(),
                Err(e) => {
                    ||| (e == PolarsError::NotContiguous && self.chunks@.len() != 1)
                    ||| (e == PolarsError::NullValue && self.chunks@.len() == 1 && exists|j: int|
                        0 <= j < self.contents().len() && self.contents()[j] is None)
                },
            },
    {
        if self.chunks.len() != 1 {
            return Err(PolarsError::NotContiguous);
        }
        proof {
            assert(self.chunks@ =~= seq![self.chunks@[0]]);
            lemma_chunks_view_single(self.chunks@[0]);
        }
        let chunk = &self.chunks[0];
        let n = chunk.values.len();
        let mut out: Vec<T> = Vec::new();
        let mut i: usize = 0;
        while i < n
            invariant
                self.wf(),
                self.chunks@.len() == 1,
                chunk == self.chunks@[0],
                self.contents() == chunk_view(self.chunks@[0]),
                n == chunk.values@.len(),
                i <= n,
                out@.len() == i,
                forall|j: int| 0 <= j < i ==> Some(#[trigger] out@[j]@) == self.contents()[j],
            decreases n - i,
        {
            match &chunk.validity {
                Some(bits) => {
                    if !bits[i] {
                        proof {
                            assert(self.contents()[i as int] is None);
                        }
                        return Err(PolarsError::NullValue);
                    }
                },
                None => {},
            }
            out.push(chunk.values[i].dup_elem());
            i += 1;
        }
        proof {
            assert(out@.map_values(|x: T| Some(x@)) =~= self.contents());
        }
        Ok(out)
    }

    /// The whole array as a fresh sequence of optional values; a new
    /// traversal starts again at the first cell.
    pub fn to_opt_vec(&self) -> (r: Vec<Option<T>>)
        requires
            self.wf(),
        ensures
            r@.map_values(|c: Option<T>| opt_view(c)) == self.contents(),
    {
        let n = self.len();
        let mut out: Vec<Option<T>> = Vec::new();
        let mut i: usize = 0;
        while i < n
            invariant
                self.wf(),
                n == self.contents().len(),
                i <= n,
                out@.len() == i,
                forall|j: int| 0 <= j < i ==> opt_view(#[trigger] out@[j]) == self.contents()[j],
            decreases n - i,
        {
            match self.get(i) {
                Some(c) => out.push(c),
                None => {
                    proof {
                        assert(false);
                    }
                },
            }
            i += 1;
        }
        proof {
            assert(out@.map_values(|c: Option<T>| opt_view(c)) =~= self.contents());
        }
        out
    }

    /// Appends one more contiguous buffer (no nulls) as a new chunk.
    pub fn push_chunk(&mut self, values: Vec<T>)
        requires
            old(self).wf(),
            old(self).contents().len() + values@.len() <= usize::MAX,
        ensures
            final(self).wf(),
            final(self).name_view() == old(self).name_view(),
            final(self).contents() == old(self).contents() + values@.map_values(|v: T| Some(v@)),
    {
        let ghost vals = values@;
        let chunk = Chunk { values, validity: None };
        let ghost c = chunk;
        self.chunks.push(chunk);
        proof {
            assert(self.chunks@ =~= old(self).chunks@ + seq![c]);
            lemma_chunks_view_concat(old(self).chunks@, seq![c]);
            lemma_chunks_view_single(c);
            assert(chunk_view(c) =~= vals.map_values(|v: T| Some(v@)));
            assert(self.contents() =~= old(self).contents() + vals.map_values(|v: T| Some(v@)));
        }
    }
}

} // verus!
