//! The decisions around a filter run over the rows of a container: the
//! argument a filter gets for a row, and which rows its answers keep.
use vstd::prelude::*;

use crate::cell::CellView;
use crate::column_frame::ColumnFrame;
use crate::container::{aligned_with_counter, ContainerView};
use crate::layout::{frames_view, rows_of, timestamp_column_name, timestamp_name};

verus! {

/// The directory under which compiled filters are stored.
pub fn compiled_map_fn_path() -> (r: &'static str)
    ensures
        r@ == seq!['q', 'u', 'e', 'r', 'i', 'e', 's'],
{
    proof {
        reveal_strlit("queries");
    }
    "queries"
}

/// A filter to register: its name and its source code.
#[derive(Debug)]
pub struct MapFnParams {
    /// Map Fn Name
    pub name: String,
    /// AssemblyScript Source Code
    pub source_code: String,
}

/// Why a row cannot be handed to a filter.
#[derive(Debug, Clone, Copy, PartialEq, Eq, Structural)]
pub enum FilterError {
    /// The row has no `timestamp` cell.
    MissingTimestamp,
    /// The row's `timestamp` cell is not an integer.
    TimestampNotInt,
}

/// The cell of the first column of `row` named `name`.
pub open spec fn lookup(row: Seq<(Seq<char>, CellView)>, name: Seq<char>) -> Option<CellView>
    decreases row.len(),
{
    if row.len() == 0 {
        None
    } else if row[0].0 == name {
        Some(row[0].1)
    } else {
        lookup(row.drop_first(), name)
    }
}

/// What a filter is called with for a row: its timestamp, cut to its low 32
/// bits.
pub open spec fn filter_input(row: Seq<(Seq<char>, CellView)>) -> Result<i32, FilterError> {
    match lookup(row, timestamp_name()) {
        Some(CellView::Int(t)) => Ok(#[verifier::truncate] (t as i32)),
        Some(_) => Err(FilterError::TimestampNotInt),
        None => Err(FilterError::MissingTimestamp),
    }
}

proof fn lemma_lookup_first(row: Seq<(Seq<char>, CellView)>, name: Seq<char>, i: int)
    requires
        0 <= i < row.len(),
        row[i].0 == name,
        forall|j: int| 0 <= j < i ==> row[j].0 != name,
    ensures
        lookup(row, name) == Some(row[i].1),
    decreases i,
{
    if i > 0 {
        lemma_lookup_first(row.drop_first(), name, i - 1);
    }
}

proof fn lemma_lookup_none(row: Seq<(Seq<char>, CellView)>, name: Seq<char>)
    requires
        forall|j: int| 0 <= j < row.len() ==> row[j].0 != name,
    ensures
        lookup(row, name) is None,
    decreases row.len(),
{
    if row.len() > 0 {
        lemma_lookup_none(row.drop_first(), name);
    }
}

/// The argument of a filter call for `row`.
pub fn filter_argument(row: &ColumnFrame) -> (r: Result<i32, FilterError>)
    ensures
        r == filter_input(row@),
{
    match row.get(timestamp_column_name()) {
        Some(cell) => {
            proof {
                let i = choose|i: int|
                    0 <= i < row@.len() && row@[i].0 == timestamp_name() && row@[i].1 == cell@
                        && forall|j: int| 0 <= j < i ==> row@[j].0 != timestamp_name();
                lemma_lookup_first(row@, timestamp_name(), i);
            }
            match cell.as_int() {
                Some(t) => Ok(#[verifier::truncate] (*t as i32)),
                None => Err(FilterError::TimestampNotInt),
            }
        },
        None => {
            proof {
                lemma_lookup_none(row@, timestamp_name());
            }
            Err(FilterError::MissingTimestamp)
        },
    }
}

/// Whether a filter's answer keeps its row: any nonzero answer does.
pub open spec fn keeps(outcome: Option<i32>) -> bool {
    outcome matches Some(v) && v != 0
}

/// The rows whose filter answer keeps them, in order; `None` stands for a
/// filter call that failed, which drops its row.
pub open spec fn selected<T>(rows: Seq<T>, outcomes: Seq<Option<i32>>) -> Seq<T>
    decreases rows.len(),
{
    if rows.len() == 0 {
        Seq::empty()
    } else {
        selected(rows.drop_last(), outcomes.take(rows.len() - 1)) + if keeps(
            outcomes[rows.len() - 1],
        ) {
            seq![rows.last()]
        } else {
            Seq::empty()
        }
    }
}

/// The rows that the filter's answers keep, in order.
pub fn select_rows(rows: Vec<ColumnFrame>, outcomes: &[Option<i32>]) -> (r: Vec<ColumnFrame>)
    requires
        rows@.len() == outcomes@.len(),
    ensures
        frames_view(r@) == selected(frames_view(rows@), outcomes@),
{
    let ghost all = rows@;
    let n = rows.len();
    let mut rows = rows;
    let mut stack: Vec<ColumnFrame> = Vec::new();
    while rows.len() > 0
        invariant
            n == all.len(),
            rows@.len() <= n,
            rows@ == all.subrange(0, rows@.len() as int),
            stack@.len() == n - rows@.len(),
            forall|j: int| 0 <= j < stack@.len() ==> #[trigger] stack@[j] == all[n - 1 - j],
        decreases rows@.len(),
    {
        let f = rows.pop().unwrap();
        stack.push(f);
        proof {
            assert(rows@ =~= all.subrange(0, rows@.len() as int));
        }
    }
    let mut kept: Vec<ColumnFrame> = Vec::new();
    let mut i: usize = 0;
    proof {
        assert(frames_view(all).take(0) =~= Seq::<Seq<(Seq<char>, CellView)>>::empty());
    }
    while i < n
        invariant
            n == all.len(),
            n == outcomes@.len(),
            i <= n,
            stack@.len() == n - i,
            forall|j: int| 0 <= j < stack@.len() ==> #[trigger] stack@[j] == all[n - 1 - j],
            frames_view(kept@) == selected(frames_view(all).take(i as int), outcomes@.take(i as int)),
        decreases n - i,
    {
        let f = stack.pop().unwrap();
        proof {
            assert(f == all[i as int]);
            let rows_i = frames_view(all).take(i + 1);
            assert(rows_i.drop_last() =~= frames_view(all).take(i as int));
            assert(outcomes@.take(i + 1).take(i as int) =~= outcomes@.take(i as int));
            assert(rows_i.last() == f@);
        }
        let ghost before = kept@;
        let keep = match outcomes[i] {
            Some(v) => v != 0,
            None => false,
        };
        if keep {
            kept.push(f);
            proof {
                assert(frames_view(kept@) =~= frames_view(before).push(f@));
            }
        }
        proof {
            let rows_i = frames_view(all).take(i + 1);
            assert(outcomes@.take(i + 1)[i as int] == outcomes@[i as int]);
            assert(selected(rows_i, outcomes@.take(i + 1)) =~= selected(
                frames_view(all).take(i as int),
                outcomes@.take(i as int),
            ) + if keep {
                seq![f@]
            } else {
                Seq::empty()
            });
        }
        i = i + 1;
    }
    proof {
        assert(frames_view(all).take(n as int) =~= frames_view(all));
        assert(outcomes@.take(n as int) =~= outcomes@);
    }
    kept
}

/// A filter that keeps every row keeps them all.
pub proof fn lemma_select_all<T>(rows: Seq<T>, outcomes: Seq<Option<i32>>)
    requires
        rows.len() == outcomes.len(),
        forall|i: int| 0 <= i < outcomes.len() ==> keeps(#[trigger] outcomes[i]),
    ensures
        selected(rows, outcomes) == rows,
    decreases rows.len(),
{
    if rows.len() > 0 {
        lemma_select_all(rows.drop_last(), outcomes.take(rows.len() - 1));
        assert(rows.drop_last() + seq![rows.last()] =~= rows);
    }
}

/// A query over a container whose columns each hold one cell per identifier
/// handed out, with a filter that keeps every row, answers with as many rows
/// as rows were inserted.
pub proof fn lemma_query_snapshot(v: ContainerView, outcomes: Seq<Option<i32>>)
    requires
        v.columns.len() > 0,
        aligned_with_counter(v),
        outcomes.len() == rows_of(v.columns).len(),
        forall|i: int| 0 <= i < outcomes.len() ==> keeps(#[trigger] outcomes[i]),
    ensures
        selected(rows_of(v.columns), outcomes).len() == v.counter,
{
    lemma_select_all(rows_of(v.columns), outcomes);
    assert(v.columns[0].entries.len() == v.counter);
}

} // verus!
