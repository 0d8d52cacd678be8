use vstd::prelude::*;

verus! {

/// The capability contract a concrete matrix representation must satisfy to
/// be iterated and consumed generically.
///
/// A matrix is modelled as a rectangular grid of entries; its mathematical
/// view is `rows()`, the sequence of its rows in order, each row the sequence
/// of that row's entries in column order. `num_rows()` and `num_cols()` give
/// the shape of the grid, and a well-formed matrix is one whose view agrees
/// with that shape (`lemma_shape` is the implementor's obligation to that
/// effect).
pub trait Matrix: Sized {
    /// The scalar type of the entries.
    type Elem;

    /// The mathematical view: the rows of the matrix, in order.
    spec fn rows(&self) -> Seq<Seq<Self::Elem>>;

    /// The number of rows of the grid.
    spec fn num_rows(&self) -> nat;

    /// The number of columns of the grid.
    spec fn num_cols(&self) -> nat;

    /// The representation invariant of the implementor.
    spec fn well_formed(&self) -> bool;

    /// A well-formed matrix has exactly `num_rows()` rows, each of length
    /// `num_cols()`.
    proof fn lemma_shape(&self)
        requires
            self.well_formed(),
        ensures
            self.rows().len() == self.num_rows(),
            forall|i: int|
                0 <= i < self.rows().len() ==> (#[trigger] self.rows()[i]).len()
                    == self.num_cols(),
    ;

    /// The shape as `(rows, columns)`.
    fn shape(&self) -> (s: (usize, usize))
        requires
            self.well_formed(),
        ensures
            s.0 == self.num_rows(),
            s.1 == self.num_cols(),
    ;

    /// Row `row`, materialized as an owned vector of entries in column order.
    fn get_row_as_vec(&self, row: usize) -> (v: Vec<Self::Elem>)
        requires
            self.well_formed(),
            row < self.num_rows(),
        ensures
            v@ == self.rows()[row as int],
    ;
}

} // verus!
