//! Tables of data: a header row and rows of cells.
use vstd::prelude::*;

verus! {

/// A table whose rows each have one cell per header.
pub struct Table<V> {
    pub headers: Vec<String>,
    pub rows: Vec<Vec<V>>,
}

impl<V> Table<V> {
    /// Every row has one cell per header.
    pub open spec fn wf(&self) -> bool {
        forall|i: int| 0 <= i < self.rows@.len() ==> #[trigger] self.rows@[i]@.len() == self.headers@.len()
    }

    /// A table with these headers and no rows.
    pub fn new(headers: Vec<String>) -> (r: Self)
        ensures
            r.wf(),
            r.headers == headers,
            r.rows@.len() == 0,
    {
        Self { headers, rows: Vec::new() }
    }

    /// Adds a row when it has one cell per header; ignores it otherwise.
    pub fn add_row(&mut self, row: Vec<V>)
        ensures
            final(self).headers == old(self).headers,
            row@.len() == old(self).headers@.len() ==> final(self).rows@ == old(self).rows@.push(row),
            row@.len() != old(self).headers@.len() ==> final(self).rows@ == old(self).rows@,
            old(self).wf() ==> final(self).wf(),
    {
        if row.len() == self.headers.len() {
            self.rows.push(row);
        }
    }
}

} // verus!
