use vstd::prelude::*;

use crate::matrix::Matrix;

verus! {

/// A lazy, finite sequence of row snapshots over a borrowed matrix.
///
/// The iterator holds no mutation capability: it observes the matrix through
/// a shared borrow for its entire lifetime, so the source cannot be mutated
/// while the iterator is alive. Restart by constructing a fresh iterator over
/// the same matrix with `row_iter`.
pub struct RowIter<'a, M: Matrix> {
    m: &'a M,
    pos: usize,
    max_pos: usize,
}

impl<'a, M: Matrix> RowIter<'a, M> {
    /// The matrix being iterated.
    pub closed spec fn source(&self) -> M {
        *self.m
    }

    /// How many rows have been yielded so far.
    pub closed spec fn position(&self) -> nat {
        self.pos as nat
    }

    /// The iterator observes a well-formed matrix, its bound is that
    /// matrix's row count, and it never runs past the bound.
    pub closed spec fn wf(&self) -> bool {
        &&& self.m.well_formed()
        &&& self.max_pos == self.m.num_rows()
        &&& self.pos <= self.max_pos
    }

    /// The next row snapshot, in order: yields row `position()` and advances,
    /// or yields nothing once every row has been produced.
    pub fn next(&mut self) -> (res: Option<Vec<M::Elem>>)
        requires
            old(self).wf(),
        ensures
            final(self).wf(),
            final(self).source() == old(self).source(),
            old(self).position() < old(self).source().num_rows() ==> {
                &&& res matches Some(v) && v@ == old(self).source().rows()[old(
                    self,
                ).position() as int]
                &&& final(self).position() == old(self).position() + 1
            },
            old(self).position() >= old(self).source().num_rows() ==> {
                &&& res is None
                &&& final(self).position() == old(self).position()
            },
    {
        if self.pos < self.max_pos {
            let row = self.m.get_row_as_vec(self.pos);
            proof {
                self.m.lemma_shape();
            }
            self.pos += 1;
            Some(row)
        } else {
            None
        }
    }
}

/// A fresh iterator over the rows of `m`, positioned before the first row.
pub fn row_iter<'a, M: Matrix>(m: &'a M) -> (it: RowIter<'a, M>)
    requires
        m.well_formed(),
    ensures
        it.wf(),
        it.source() == *m,
        it.position() == 0,
{
    RowIter { m: m, pos: 0, max_pos: m.shape().0 }
}

/// Every row of `m`, in order, each materialized as an owned vector: the
/// sequence a full traversal of `row_iter(m)` yields.
pub fn collect_rows<M: Matrix>(m: &M) -> (out: Vec<Vec<M::Elem>>)
    requires
        m.well_formed(),
    ensures
        out@.len() == m.num_rows(),
        forall|k: int| 0 <= k < out@.len() ==> (#[trigger] out@[k])@ == m.rows()[k],
{
    let (nrows, _ncols) = m.shape();
    let mut it = row_iter(m);
    let mut out: Vec<Vec<M::Elem>> = Vec::new();
    let mut i: usize = 0;
    while i < nrows
        invariant
            m.well_formed(),
            it.wf(),
            it.source() == *m,
            it.position() == i,
            i <= nrows,
            nrows == m.num_rows(),
            out@.len() == i,
            forall|k: int| 0 <= k < out@.len() ==> (#[trigger] out@[k])@ == m.rows()[k],
        decreases nrows - i,
    {
        let row = it.next().unwrap();
        out.push(row);
        i += 1;
    }
    out
}

} // verus!
