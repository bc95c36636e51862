//! The ordered columns of a container: which exist, in what order, and the
//! commit of one row across them.
use vstd::prelude::*;

use crate::cell::{Cell, CellView};
use crate::column::{
    check_log, lemma_log_round_trip, log_of, parse_log, record_of, storable, Column, ColumnView,
    CorruptionError,
};
use crate::column_frame::ColumnFrame;
use crate::config::SchemaConfig;
use crate::data_type::{data_type_of_config, str_eq, DataType};

verus! {

pub open spec fn id_name() -> Seq<char> {
    seq!['i', 'd']
}

pub open spec fn timestamp_name() -> Seq<char> {
    seq!['t', 'i', 'm', 'e', 's', 't', 'a', 'm', 'p']
}

pub fn id_column_name() -> (r: &'static str)
    ensures
        r@ == id_name(),
{
    proof {
        reveal_strlit("id");
    }
    "id"
}

pub fn timestamp_column_name() -> (r: &'static str)
    ensures
        r@ == timestamp_name(),
{
    proof {
        reveal_strlit("timestamp");
    }
    "timestamp"
}

/// The names and types of the columns that a fresh container lays out for a
/// schema: `id` first, then the user columns in order, then `timestamp` where
/// the schema asks for it.
pub open spec fn schema_pairs(config: SchemaConfig) -> Seq<(Seq<char>, DataType)> {
    seq![(id_name(), DataType::Int)] + Seq::new(
        config.columns@.len(),
        |i: int| (config.columns@[i].name@, data_type_of_config(config.columns@[i].data_type)),
    ) + if config.add_timestamp_column {
        seq![(timestamp_name(), DataType::Int)]
    } else {
        Seq::empty()
    }
}

/// A column of the given name and type holding the cells of a log that reads
/// without error.
pub open spec fn loaded_view(name: Seq<char>, data_type: DataType, log: Seq<u8>) -> ColumnView {
    ColumnView { name, data_type, entries: parse_log(log)->Ok_0 }
}

pub open spec fn pairs_view(v: Seq<(String, DataType)>) -> Seq<(Seq<char>, DataType)> {
    v.map_values(|p: (String, DataType)| (p.0@, p.1))
}

pub open spec fn staged_view(v: Seq<(String, Cell)>) -> Seq<(Seq<char>, CellView)> {
    v.map_values(|p: (String, Cell)| (p.0@, p.1@))
}

pub open spec fn has_name(cols: Seq<ColumnView>, name: Seq<char>) -> bool {
    exists|k: int| 0 <= k < cols.len() && #[trigger] cols[k].name == name
}

pub open spec fn distinct_names(cols: Seq<ColumnView>) -> bool {
    forall|i: int, j: int|
        0 <= i < cols.len() && 0 <= j < cols.len() && i != j ==> #[trigger] cols[i].name
            != #[trigger] cols[j].name
}

/// The cells of `pairs` that go to the column named `name`, in order.
pub open spec fn cells_for(pairs: Seq<(Seq<char>, CellView)>, name: Seq<char>) -> Seq<CellView>
    decreases pairs.len(),
{
    if pairs.len() == 0 {
        Seq::empty()
    } else {
        let last = pairs.last();
        cells_for(pairs.drop_last(), name) + if last.0 == name {
            seq![last.1]
        } else {
            Seq::empty()
        }
    }
}

/// The columns after each cell of `pairs` is appended to the column of its name.
pub open spec fn committed(cols: Seq<ColumnView>, pairs: Seq<(Seq<char>, CellView)>) -> Seq<
    ColumnView,
> {
    Seq::new(
        cols.len(),
        |k: int| ColumnView { entries: cols[k].entries + cells_for(pairs, cols[k].name), ..cols[k] },
    )
}

/// Every column holds as many cells as the first.
pub open spec fn aligned(cols: Seq<ColumnView>) -> bool {
    forall|k: int| 0 <= k < cols.len() ==> #[trigger] cols[k].entries.len() == cols[0].entries.len()
}

/// The number of rows of aligned columns.
pub open spec fn row_count(cols: Seq<ColumnView>) -> nat {
    if cols.len() == 0 {
        0
    } else {
        cols[0].entries.len()
    }
}

/// Row `n`: the name and `n`-th cell of each column, in column order.
pub open spec fn row_at(cols: Seq<ColumnView>, n: int) -> Seq<(Seq<char>, CellView)> {
    Seq::new(cols.len(), |k: int| (cols[k].name, cols[k].entries[n]))
}

/// The rows of aligned columns, in order.
pub open spec fn rows_of(cols: Seq<ColumnView>) -> Seq<Seq<(Seq<char>, CellView)>> {
    Seq::new(row_count(cols), |n: int| row_at(cols, n))
}

pub open spec fn frames_view(v: Seq<ColumnFrame>) -> Seq<Seq<(Seq<char>, CellView)>> {
    v.map_values(|f: ColumnFrame| f@)
}

#[derive(Debug)]
pub struct ColumnLayout {
    columns: Vec<Column>,
}

impl View for ColumnLayout {
    type V = Seq<ColumnView>;

    closed spec fn view(&self) -> Seq<ColumnView> {
        self.columns@.map_values(|c: Column| c@)
    }
}

impl ColumnLayout {
    pub fn new() -> (r: Self)
        ensures
            r@ == Seq::<ColumnView>::empty(),
    {
        let r = ColumnLayout { columns: Vec::new() };
        proof {
            assert(r@ =~= Seq::<ColumnView>::empty());
        }
        r
    }

    /// The names and types of a fresh layout for `config`.
    pub fn schema_layout(config: &SchemaConfig) -> (r: Vec<(String, DataType)>)
        ensures
            pairs_view(r@) == schema_pairs(*config),
    {
        let mut r: Vec<(String, DataType)> = Vec::new();
        r.push((id_column_name().to_string(), DataType::Int));
        let mut i: usize = 0;
        while i < config.columns.len()
            invariant
                i <= config.columns@.len(),
                pairs_view(r@) == seq![(id_name(), DataType::Int)] + Seq::new(
                    i as nat,
                    |j: int|
                        (
                            config.columns@[j].name@,
                            data_type_of_config(config.columns@[j].data_type),
                        ),
                ),
            decreases config.columns@.len() - i,
        {
            let c = &config.columns[i];
            let t = DataType::from(c.data_type);
            assert(t == data_type_of_config(c.data_type));
            let ghost before = r@;
            r.push((c.name.clone(), t));
            proof {
                assert(pairs_view(r@) =~= pairs_view(before).push((c.name@, t)));
                assert(pairs_view(r@) =~= seq![(id_name(), DataType::Int)] + Seq::new(
                    (i + 1) as nat,
                    |j: int|
                        (
                            config.columns@[j].name@,
                            data_type_of_config(config.columns@[j].data_type),
                        ),
                ));
            }
            i = i + 1;
        }
        if config.add_timestamp_column {
            r.push((timestamp_column_name().to_string(), DataType::Int));
        }
        proof {
            assert(pairs_view(r@) =~= schema_pairs(*config));
        }
        r
    }

    /// The names and types a container opens with: the persisted layout where
    /// there is one, trusted as it stands; else a fresh layout for `config`,
    /// which is then to be persisted (the flag says so).
    pub fn layout_for(config: &SchemaConfig, persisted: Option<Vec<(String, DataType)>>) -> (r: (
        Vec<(String, DataType)>,
        bool,
    ))
        ensures
            match persisted {
                Some(p) => r.0@ == p@ && !r.1,
                None => pairs_view(r.0@) == schema_pairs(*config) && r.1,
            },
    {
        match persisted {
            Some(p) => (p, false),
            None => (Self::schema_layout(config), true),
        }
    }

    /// Adds the columns named in `pairs`, in order, each with the cells of its
    /// log in `logs`. On a corrupt log the error of the first one is returned.
    pub fn load(&mut self, pairs: &[(String, DataType)], logs: &[Vec<u8>])
        requires
            pairs@.len() == logs@.len(),
            forall|k: int| 0 <= k < logs@.len() ==> parse_log(#[trigger] logs@[k]@) is Ok,
        ensures
            final(self)@ == old(self)@ + Seq::new(
                pairs@.len(),
                |k: int| loaded_view(pairs@[k].0@, pairs@[k].1, logs@[k]@),
            ),
    {
        let mut i: usize = 0;
        while i < pairs.len()
            invariant
                i <= pairs@.len(),
                pairs@.len() == logs@.len(),
                forall|k: int| 0 <= k < logs@.len() ==> parse_log(#[trigger] logs@[k]@) is Ok,
                self@ == old(self)@ + Seq::new(i as nat, |k: int| loaded_view(pairs@[k].0@, pairs@[k].1, logs@[k]@)),
            decreases pairs@.len() - i,
        {
            let mut c = Column::new(pairs[i].0.clone(), pairs[i].1);
            let ghost fresh = c@;
            let log = logs[i].as_slice();
            assert(log@ == logs@[i as int]@);
            c.load(log);
            let ghost before = self@;
            proof {
                assert(parse_log(logs@[i as int]@) is Ok);
                let cs = parse_log(logs@[i as int]@)->Ok_0;
                assert(c@.entries == fresh.entries + cs);
                assert(fresh.entries + cs =~= cs);
                assert(c@.name == pairs@[i as int].0@);
                assert(c@.data_type == pairs@[i as int].1);
                assert(c@.entries == cs);
                assert(c@ == loaded_view(pairs@[i as int].0@, pairs@[i as int].1, logs@[i as int]@));
            }
            self.columns.push(c);
            proof {
                assert(self@ =~= before.push(c@));
                assert(self@ =~= old(self)@ + Seq::new((i + 1) as nat, |k: int| loaded_view(pairs@[k].0@, pairs@[k].1, logs@[k]@)));
            }
            i = i + 1;
        }
        proof {
            assert(Seq::new(pairs@.len(), |k: int| loaded_view(pairs@[k].0@, pairs@[k].1, logs@[k]@)) =~= Seq::new(i as nat, |k: int| loaded_view(pairs@[k].0@, pairs@[k].1, logs@[k]@)));
        }
    }

    /// The first fault among the logs, in order, if any.
    pub fn check_logs(logs: &[Vec<u8>]) -> (r: Result<(), CorruptionError>)
        ensures
            r is Ok <==> forall|k: int| 0 <= k < logs@.len() ==> parse_log(#[trigger] logs@[k]@) is Ok,
            r matches Err(e) ==> exists|k: int|
                0 <= k < logs@.len() && parse_log(#[trigger] logs@[k]@) == Err::<
                    Seq<CellView>,
                    CorruptionError,
                >(e),
    {
        let mut i: usize = 0;
        while i < logs.len()
            invariant
                i <= logs@.len(),
                forall|k: int| 0 <= k < i ==> parse_log(#[trigger] logs@[k]@) is Ok,
            decreases logs@.len() - i,
        {
            match check_log(logs[i].as_slice()) {
                Ok(()) => {},
                Err(e) => {
                    return Err(e);
                },
            }
            i = i + 1;
        }
        Ok(())
    }

    /// Whether every column holds as many cells as the first.
    pub fn is_aligned(&self) -> (r: bool)
        ensures
            r == aligned(self@),
    {
        if self.columns.len() == 0 {
            return true;
        }
        let reference_length = self.columns[0].entries().len();
        let mut k: usize = 0;
        while k < self.columns.len()
            invariant
                self@.len() > 0,
                reference_length == self@[0].entries.len(),
                k <= self@.len(),
                forall|j: int| 0 <= j < k ==> #[trigger] self@[j].entries.len() == reference_length,
            decreases self@.len() - k,
        {
            if self.columns[k].entries().len() != reference_length {
                assert(self@[k as int].entries.len() != self@[0].entries.len());
                return false;
            }
            k = k + 1;
        }
        true
    }

    pub fn insert_column(&mut self, new_column: Column)
        ensures
            final(self)@ == old(self)@.push(new_column@),
    {
        self.columns.push(new_column);
        proof {
            assert(self@ =~= old(self)@.push(new_column@));
        }
    }

    /// The names and types of the columns in order, as the layout is persisted.
    pub fn layout(&self) -> (r: Vec<(String, DataType)>)
        ensures
            r@.len() == self@.len(),
            forall|k: int|
                0 <= k < self@.len() ==> (#[trigger] r@[k]).0@ == self@[k].name && r@[k].1
                    == self@[k].data_type,
    {
        let mut r: Vec<(String, DataType)> = Vec::new();
        let mut i: usize = 0;
        while i < self.columns.len()
            invariant
                i <= self@.len(),
                r@.len() == i,
                forall|k: int|
                    0 <= k < i ==> (#[trigger] r@[k]).0@ == self@[k].name && r@[k].1
                        == self@[k].data_type,
            decreases self@.len() - i,
        {
            let c = &self.columns[i];
            r.push((c.name().to_string(), *c.data_type()));
            i = i + 1;
        }
        r
    }

    pub fn len(&self) -> (r: usize)
        ensures
            r == self@.len(),
    {
        self.columns.len()
    }

    pub fn column_names(&self) -> (r: Vec<String>)
        ensures
            r@.len() == self@.len(),
            forall|k: int| 0 <= k < self@.len() ==> (#[trigger] r@[k])@ == self@[k].name,
    {
        let mut r: Vec<String> = Vec::new();
        let mut i: usize = 0;
        while i < self.columns.len()
            invariant
                i <= self@.len(),
                r@.len() == i,
                forall|k: int| 0 <= k < i ==> (#[trigger] r@[k])@ == self@[k].name,
            decreases self@.len() - i,
        {
            r.push(self.columns[i].name().to_string());
            i = i + 1;
        }
        r
    }

    /// The position of the first column named `name`.
    pub fn position(&self, name: &str) -> (r: Option<usize>)
        ensures
            r is None <==> !has_name(self@, name@),
            r matches Some(k) ==> k < self@.len() && self@[k as int].name == name@ && forall|
                j: int,
            | 0 <= j < k ==> self@[j].name != name@,
    {
        let mut i: usize = 0;
        while i < self.columns.len()
            invariant
                i <= self@.len(),
                forall|j: int| 0 <= j < i ==> self@[j].name != name@,
            decreases self@.len() - i,
        {
            if str_eq(self.columns[i].name(), name) {
                return Some(i);
            }
            i = i + 1;
        }
        None
    }

    pub fn find_column(&self, column_name: &str) -> (r: Option<&Column>)
        ensures
            r is None <==> !has_name(self@, column_name@),
            r matches Some(c) ==> exists|k: int|
                0 <= k < self@.len() && self@[k] == c@ && c@.name == column_name@ && forall|j: int|
                    0 <= j < k ==> self@[j].name != column_name@,
    {
        match self.position(column_name) {
            Some(k) => Some(&self.columns[k]),
            None => None,
        }
    }

    pub fn timestamp_column(&self) -> (r: Option<&Column>)
        ensures
            r is None <==> !has_name(self@, timestamp_name()),
            r matches Some(c) ==> c@.name == timestamp_name() && has_name(self@, timestamp_name()),
    {
        self.find_column(timestamp_column_name())
    }

    /// Appends each cell to the column of its name, and returns for each, in
    /// order, the column name and the record to append to its log.
    pub fn commit(&mut self, values: Vec<(String, Cell)>) -> (r: Vec<(String, Vec<u8>)>)
        requires
            distinct_names(old(self)@),
            forall|i: int|
                0 <= i < values@.len() ==> has_name(old(self)@, (#[trigger] values@[i]).0@),
            forall|i: int| 0 <= i < values@.len() ==> storable((#[trigger] values@[i]).1@),
        ensures
            final(self)@ == committed(old(self)@, staged_view(values@)),
            r@.len() == values@.len(),
            forall|i: int|
                0 <= i < values@.len() ==> (#[trigger] r@[i]).0@ == values@[i].0@ && r@[i].1@
                    == record_of(values@[i].1@),
    {
        let ghost pairs = staged_view(values@);
        let ghost all = values@;
        let n = values.len();
        let mut values = values;
        let mut records: Vec<(String, Vec<u8>)> = Vec::new();
        let mut i: usize = 0;
        proof {
            assert(self@ =~= committed(old(self)@, pairs.take(0)));
        }
        while i < n
            invariant
                n == all.len(),
                i <= n,
                values@ == all.subrange(i as int, n as int),
                records@.len() == i,
                forall|j: int|
                    0 <= j < i ==> (#[trigger] records@[j]).0@ == all[j].0@ && records@[j].1@
                        == record_of(all[j].1@),
                self@.len() == old(self)@.len(),
                distinct_names(old(self)@),
                self@ == committed(old(self)@, pairs.take(i as int)),
                pairs == staged_view(all),
                forall|j: int| 0 <= j < all.len() ==> has_name(old(self)@, (#[trigger] all[j]).0@),
                forall|j: int| 0 <= j < all.len() ==> storable((#[trigger] all[j]).1@),
            decreases n - i,
        {
            let (name, cell) = values.remove(0);
            proof {
                assert(values@ =~= all.subrange(i + 1, n as int));
                assert(name@ == all[i as int].0@ && cell@ == all[i as int].1@);
                assert(has_name(old(self)@, all[i as int].0@));
                let w = choose|w: int| 0 <= w < old(self)@.len() && #[trigger] old(self)@[w].name == name@;
                assert(self@[w].name == committed(old(self)@, pairs.take(i as int))[w].name);
                assert(has_name(self@, name@));
            }
            let k = self.position(name.as_str()).unwrap();
            let ghost before = self@;
            let record = self.columns[k].insert(cell);
            records.push((name, record));
            proof {
                assert(pairs.take(i + 1).drop_last() =~= pairs.take(i as int));
                assert(pairs.take(i + 1).last() == (all[i as int].0@, all[i as int].1@));
                assert forall|m: int| 0 <= m < self@.len() implies #[trigger] self@[m]
                    == committed(old(self)@, pairs.take(i + 1))[m] by {
                    if m == k {
                        assert(self@[m].entries =~= before[m].entries.push(all[i as int].1@));
                        assert(cells_for(pairs.take(i + 1), old(self)@[m].name) =~= cells_for(
                            pairs.take(i as int),
                            old(self)@[m].name,
                        ).push(all[i as int].1@));
                    } else {
                        assert(old(self)@[m].name != old(self)@[k as int].name);
                        assert(self@[m] == before[m]);
                        assert(cells_for(pairs.take(i + 1), old(self)@[m].name) =~= cells_for(
                            pairs.take(i as int),
                            old(self)@[m].name,
                        ) + Seq::empty());
                    }
                }
                assert(self@ =~= committed(old(self)@, pairs.take(i + 1)));
            }
            i = i + 1;
        }
        proof {
            assert(pairs.take(n as int) =~= pairs);
        }
        records
    }

    /// The rows of the layout, in order. The columns must all hold the same
    /// number of cells (see `is_aligned`).
    pub fn all_rows(&self) -> (r: Vec<ColumnFrame>)
        requires
            aligned(self@),
        ensures
            frames_view(r@) == rows_of(self@),
    {
        if self.columns.len() == 0 {
            let rows: Vec<ColumnFrame> = Vec::new();
            proof {
                assert(frames_view(rows@) =~= rows_of(self@));
            }
            return rows;
        }
        let reference_length = self.columns[0].entries().len();
        let mut rows: Vec<ColumnFrame> = Vec::new();
        let mut n: usize = 0;
        while n < reference_length
            invariant
                aligned(self@),
                self@.len() > 0,
                reference_length == row_count(self@),
                n <= reference_length,
                frames_view(rows@) == rows_of(self@).take(n as int),
            decreases reference_length - n,
        {
            let mut frame = ColumnFrame::new();
            let mut k: usize = 0;
            while k < self.columns.len()
                invariant
                    aligned(self@),
                    self@.len() > 0,
                    reference_length == row_count(self@),
                    n < reference_length,
                    k <= self@.len(),
                    frame@ == row_at(self@, n as int).take(k as int),
                decreases self@.len() - k,
            {
                let column = &self.columns[k];
                let entries = column.entries();
                assert(self@[k as int].entries.len() == reference_length);
                let cell = entries[n].duplicate();
                frame.insert(column.name(), cell);
                proof {
                    assert(frame@ =~= row_at(self@, n as int).take(k + 1));
                }
                k = k + 1;
            }
            proof {
                assert(frame@ =~= row_at(self@, n as int));
            }
            let ghost prev = rows@;
            rows.push(frame);
            proof {
                assert(frames_view(rows@) =~= frames_view(prev).push(frame@));
                assert(rows_of(self@).take(n + 1) =~= rows_of(self@).take(n as int).push(
                    row_at(self@, n as int),
                ));
            }
            n = n + 1;
        }
        proof {
            assert(rows_of(self@).take(n as int) =~= rows_of(self@));
        }
        rows
    }
}

/// Restart equivalence: loading the persisted layout of some columns, each
/// column from the log of its cells, gives back the same columns, and so the
/// same rows; two openings of the same files agree.
pub proof fn lemma_reopen(cols: Seq<ColumnView>)
    requires
        forall|k: int, i: int|
            0 <= k < cols.len() && 0 <= i < cols[k].entries.len() ==> storable(
                #[trigger] cols[k].entries[i],
            ),
    ensures
        forall|k: int| 0 <= k < cols.len() ==> parse_log(#[trigger] log_of(cols[k].entries)) is Ok,
        Seq::new(
            cols.len(),
            |k: int| loaded_view(cols[k].name, cols[k].data_type, log_of(cols[k].entries)),
        ) == cols,
        rows_of(
            Seq::new(
                cols.len(),
                |k: int| loaded_view(cols[k].name, cols[k].data_type, log_of(cols[k].entries)),
            ),
        ) == rows_of(cols),
{
    assert forall|k: int| 0 <= k < cols.len() implies parse_log(#[trigger] log_of(cols[k].entries))
        == Ok::<Seq<CellView>, CorruptionError>(cols[k].entries) by {
        assert forall|i: int| 0 <= i < cols[k].entries.len() implies storable(
            #[trigger] cols[k].entries[i],
        ) by {
            assert(storable(cols[k].entries[i]));
        }
        lemma_log_round_trip(cols[k].entries);
    }
    let reloaded = Seq::new(
        cols.len(),
        |k: int| loaded_view(cols[k].name, cols[k].data_type, log_of(cols[k].entries)),
    );
    assert(reloaded =~= cols);
}

} // verus!
