use vstd::prelude::*;

verus! {

/// A square matrix given by its columns (three columns of three-dimensional
/// vectors where a determinant is taken).
pub struct Matrix<V> {
    columns: Vec<V>,
}

impl<V> Matrix<V> {
    /// The columns, in order.
    pub closed spec fn spec_columns(&self) -> Seq<V> {
        self.columns@
    }

    /// The matrix with the given columns.
    pub fn new(columns: Vec<V>) -> (m: Self)
        ensures
            m.spec_columns() == columns@,
    {
        Matrix { columns }
    }

    /// The columns, in order.
    pub fn columns(&self) -> (c: &Vec<V>)
        ensures
            c@ == self.spec_columns(),
    {
        &self.columns
    }
}

} // verus!
