//! One row: the cells of all columns at one position, with their column names.
use vstd::prelude::*;

use crate::cell::{Cell, CellView};
use crate::data_type::str_eq;

verus! {

#[derive(Debug)]
pub struct ColumnFrame {
    columns: Vec<(String, Cell)>,
}

impl View for ColumnFrame {
    type V = Seq<(Seq<char>, CellView)>;

    /// The (column name, cell) pairs in column order.
    closed spec fn view(&self) -> Seq<(Seq<char>, CellView)> {
        self.columns@.map_values(|p: (String, Cell)| (p.0@, p.1@))
    }
}

impl ColumnFrame {
    pub fn new() -> (r: Self)
        ensures
            r@ == Seq::<(Seq<char>, CellView)>::empty(),
    {
        let r = ColumnFrame { columns: Vec::new() };
        proof {
            assert(r@ =~= Seq::<(Seq<char>, CellView)>::empty());
        }
        r
    }

    pub fn insert(&mut self, column_name: &str, cell: Cell)
        ensures
            final(self)@ == old(self)@.push((column_name@, cell@)),
    {
        self.columns.push((column_name.to_string(), cell));
        proof {
            assert(self@ =~= old(self)@.push((column_name@, cell@)));
        }
    }

    pub fn len(&self) -> (r: usize)
        ensures
            r == self@.len(),
    {
        self.columns.len()
    }

    /// The name and cell at position `i`.
    pub fn entry(&self, i: usize) -> (r: (&str, &Cell))
        requires
            i < self@.len(),
        ensures
            (r.0@, r.1@) == self@[i as int],
    {
        let (name, cell) = &self.columns[i];
        proof {
            assert(self@[i as int] == (name@, cell@));
        }
        (name.as_str(), cell)
    }

    /// The cell of the first column named `column_name`, if any.
    pub fn get(&self, column_name: &str) -> (r: Option<&Cell>)
        ensures
            r is None <==> forall|i: int| 0 <= i < self@.len() ==> self@[i].0 != column_name@,
            r matches Some(c) ==> exists|i: int|
                0 <= i < self@.len() && self@[i].0 == column_name@ && self@[i].1 == c@ && forall|
                    j: int,
                | 0 <= j < i ==> self@[j].0 != column_name@,
    {
        let mut i: usize = 0;
        while i < self.columns.len()
            invariant
                i <= self@.len(),
                forall|j: int| 0 <= j < i ==> self@[j].0 != column_name@,
            decreases self@.len() - i,
        {
            let (name, cell) = &self.columns[i];
            proof {
                assert(self@[i as int] == (name@, cell@));
            }
            if str_eq(name.as_str(), column_name) {
                return Some(cell);
            }
            i = i + 1;
        }
        None
    }
}

} // verus!
