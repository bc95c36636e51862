//! A schema-aware store of rows: validation of a row against the layout,
//! identifier allocation with rollback, and the commit of one row across all
//! columns.
use vstd::prelude::*;

use crate::auto_index::{AutoIndex, COUNTER_MAX};
use crate::cell::{cell_of_value, Cell, CellView};
use crate::column::{parse_log, record_of, storable, Column, ColumnView};
use crate::column_frame::ColumnFrame;
use crate::config::SchemaConfig;
use crate::data_type::{compatible, str_eq, DataType};
use crate::layout::{
    aligned, committed, cells_for, loaded_view, pairs_view, schema_pairs, distinct_names, frames_view, has_name, id_column_name, id_name,
    rows_of, staged_view, timestamp_column_name, timestamp_name, ColumnLayout,
};
use crate::value::Value;

verus! {

/// The fields of one row and their values, position by position.
#[derive(Debug)]
pub struct IndexParams {
    pub fields: Vec<String>,
    pub values: Vec<Value>,
}

#[derive(Debug)]
pub enum ContainerError {
    /// Fields that name no column, a reserved column that was supplied, or a
    /// column named twice.
    InvalidFields(Vec<String>),
    /// A value that the column of its field cannot hold.
    InvalidDataType(Value, DataType),
    /// The expected and the given number of fields, or of fields and values.
    FieldCountMismatch(usize, usize),
    /// The schema asks for a timestamp column that the layout does not have.
    MissingTimestampColumn,
    /// The layout has no `id` column, or names a column twice.
    CorruptLayout,
}

/// The names and types a container opens with: the persisted layout where
/// there is one, else the fresh layout of `config`.
pub open spec fn opened_pairs(
    config: SchemaConfig,
    persisted_layout: Option<Vec<(String, DataType)>>,
) -> Seq<(Seq<char>, DataType)> {
    match persisted_layout {
        Some(p) => pairs_view(p@),
        None => schema_pairs(config),
    }
}

/// Why a row is rejected.
pub enum Rejection {
    InvalidFields(Seq<Seq<char>>),
    InvalidDataType(Value, DataType),
    FieldCountMismatch(nat, nat),
    MissingTimestampColumn,
    CorruptLayout,
}

pub open spec fn strings_view(v: Seq<String>) -> Seq<Seq<char>> {
    v.map_values(|s: String| s@)
}

impl View for ContainerError {
    type V = Rejection;

    open spec fn view(&self) -> Rejection {
        match self {
            ContainerError::InvalidFields(v) => Rejection::InvalidFields(strings_view(v@)),
            ContainerError::InvalidDataType(v, t) => Rejection::InvalidDataType(*v, *t),
            ContainerError::FieldCountMismatch(a, b) => Rejection::FieldCountMismatch(
                *a as nat,
                *b as nat,
            ),
            ContainerError::MissingTimestampColumn => Rejection::MissingTimestampColumn,
            ContainerError::CorruptLayout => Rejection::CorruptLayout,
        }
    }
}

/// What a container holds: whether it keeps a timestamp column, its columns in
/// order, and the last identifier handed out.
pub struct ContainerView {
    pub add_timestamp: bool,
    pub columns: Seq<ColumnView>,
    pub counter: int,
}

/// A layout a container can work on: an `id` column, no name twice, and a
/// counter that is not negative.
pub open spec fn well_formed(v: ContainerView) -> bool {
    &&& distinct_names(v.columns)
    &&& has_name(v.columns, id_name())
    &&& v.counter >= 0
}

/// Every column holds one cell for each identifier handed out.
pub open spec fn aligned_with_counter(v: ContainerView) -> bool {
    forall|k: int| 0 <= k < v.columns.len() ==> #[trigger] v.columns[k].entries.len() == v.counter
}

/// The number of fields a row must name: all columns but `id` and, where it is
/// kept, `timestamp`.
pub open spec fn user_column_count(v: ContainerView) -> int {
    v.columns.len() - 1 - if v.add_timestamp {
        1int
    } else {
        0
    }
}

/// The fields that name no column, in order.
pub open spec fn unknown_fields(cols: Seq<ColumnView>, fields: Seq<Seq<char>>) -> Seq<Seq<char>>
    decreases fields.len(),
{
    if fields.len() == 0 {
        Seq::empty()
    } else {
        unknown_fields(cols, fields.drop_last()) + if has_name(cols, fields.last()) {
            Seq::empty()
        } else {
            seq![fields.last()]
        }
    }
}

/// The fields that misuse a column, in order: `id`, which the container fills
/// itself, and every repeat of a name already given.
pub open spec fn misused_fields(fields: Seq<Seq<char>>) -> Seq<Seq<char>>
    decreases fields.len(),
{
    if fields.len() == 0 {
        Seq::empty()
    } else {
        misused_fields(fields.drop_last()) + if fields.last() == id_name() || fields.drop_last().contains(
            fields.last(),
        ) {
            seq![fields.last()]
        } else {
            Seq::empty()
        }
    }
}

/// The checks on the field names alone, in order: their number, the reserved
/// `timestamp`, unknown names, `id` or a repeated name, and the number of values.
pub open spec fn field_rejection(v: ContainerView, fields: Seq<Seq<char>>, n_values: nat) -> Option<
    Rejection,
> {
    if fields.len() != user_column_count(v) {
        Some(
            Rejection::FieldCountMismatch(
                if user_column_count(v) >= 0 {
                    user_column_count(v) as nat
                } else {
                    0
                },
                fields.len(),
            ),
        )
    } else if v.add_timestamp && fields.contains(timestamp_name()) {
        Some(Rejection::InvalidFields(seq![timestamp_name()]))
    } else if unknown_fields(v.columns, fields).len() > 0 {
        Some(Rejection::InvalidFields(unknown_fields(v.columns, fields)))
    } else if misused_fields(fields).len() > 0 {
        Some(Rejection::InvalidFields(misused_fields(fields)))
    } else if fields.len() != n_values {
        Some(Rejection::FieldCountMismatch(fields.len(), n_values))
    } else {
        None
    }
}

/// The declared type of the column named `name`.
pub open spec fn type_of(cols: Seq<ColumnView>, name: Seq<char>) -> DataType {
    cols[choose|k: int| 0 <= k < cols.len() && cols[k].name == name].data_type
}

/// The first position from `i` on whose value its column cannot hold.
pub open spec fn first_incompatible(
    cols: Seq<ColumnView>,
    fields: Seq<Seq<char>>,
    values: Seq<Value>,
    i: int,
) -> Option<int>
    decreases fields.len() - i,
{
    if i < 0 || i >= fields.len() {
        None
    } else if !compatible(type_of(cols, fields[i]), values[i]) {
        Some(i)
    } else {
        first_incompatible(cols, fields, values, i + 1)
    }
}

/// Why `index` rejects a row, or none where it takes it.
pub open spec fn index_rejection(v: ContainerView, fields: Seq<Seq<char>>, values: Seq<Value>) -> Option<
    Rejection,
> {
    if field_rejection(v, fields, values.len()) is Some {
        field_rejection(v, fields, values.len())
    } else if v.add_timestamp && !has_name(v.columns, timestamp_name()) {
        Some(Rejection::MissingTimestampColumn)
    } else {
        match first_incompatible(v.columns, fields, values, 0) {
            Some(i) => Some(Rejection::InvalidDataType(values[i], type_of(v.columns, fields[i]))),
            None => None,
        }
    }
}

/// The (column, cell) pairs of an accepted row: the identifier, the timestamp
/// where one is kept, then each field's value in the caller's order.
pub open spec fn staged(
    add_timestamp: bool,
    id: i64,
    now: u64,
    fields: Seq<Seq<char>>,
    values: Seq<Value>,
) -> Seq<(Seq<char>, CellView)> {
    seq![(id_name(), CellView::Int(id))] + if add_timestamp {
        seq![(timestamp_name(), CellView::Int(#[verifier::truncate] (now as i64)))]
    } else {
        Seq::empty()
    } + Seq::new(fields.len(), |i: int| (fields[i], cell_of_value(values[i])->Some_0))
}

/// Whether every value that becomes a cell fits a record.
pub open spec fn values_storable(values: Seq<Value>) -> bool {
    forall|i: int|
        0 <= i < values.len() ==> match cell_of_value(#[trigger] values[i]) {
            Some(c) => storable(c),
            None => true,
        }
}

/// The field names are pairwise distinct and none is `id`.
pub open spec fn plain_fields(fields: Seq<Seq<char>>) -> bool {
    &&& fields.no_duplicates()
    &&& !fields.contains(id_name())
}

#[derive(Debug)]
pub struct Container {
    config: SchemaConfig,
    columns: ColumnLayout,
    index_counter: AutoIndex,
}

impl View for Container {
    type V = ContainerView;

    closed spec fn view(&self) -> ContainerView {
        ContainerView {
            add_timestamp: self.config.add_timestamp_column,
            columns: self.columns@,
            counter: self.index_counter@,
        }
    }
}

/// Fields with nothing misused are distinct and do not name `id`.
proof fn lemma_misused_empty(fields: Seq<Seq<char>>)
    requires
        misused_fields(fields).len() == 0,
    ensures
        plain_fields(fields),
    decreases fields.len(),
{
    if fields.len() > 0 {
        let rest = fields.drop_last();
        lemma_misused_empty(rest);
        assert(fields.last() != id_name() && !rest.contains(fields.last()));
        assert forall|a: int, b: int| 0 <= a < fields.len() && 0 <= b < fields.len() && a != b implies fields[a]
            != fields[b] by {
            if a == fields.len() - 1 {
                assert(rest[b] == fields[b]);
            } else if b == fields.len() - 1 {
                assert(rest[a] == fields[a]);
            } else {
                assert(rest[a] != rest[b]);
            }
        }
        if fields.contains(id_name()) {
            let k = choose|k: int| 0 <= k < fields.len() && fields[k] == id_name();
            if k < fields.len() - 1 {
                assert(rest[k] == id_name());
            }
        }
    }
}

proof fn lemma_unknown_fields_empty(cols: Seq<ColumnView>, fields: Seq<Seq<char>>, i: int)
    requires
        unknown_fields(cols, fields).len() == 0,
        0 <= i < fields.len(),
    ensures
        has_name(cols, fields[i]),
    decreases fields.len(),
{
    if i < fields.len() - 1 {
        lemma_unknown_fields_empty(cols, fields.drop_last(), i);
    }
}

proof fn lemma_known_field(v: ContainerView, fields: Seq<Seq<char>>, n_values: nat, i: int)
    requires
        field_rejection(v, fields, n_values) is None,
        0 <= i < fields.len(),
    ensures
        has_name(v.columns, fields[i]),
{
    lemma_unknown_fields_empty(v.columns, fields, i);
}

proof fn lemma_type_of(cols: Seq<ColumnView>, name: Seq<char>, k: int)
    requires
        distinct_names(cols),
        0 <= k < cols.len(),
        cols[k].name == name,
    ensures
        type_of(cols, name) == cols[k].data_type,
{
    let j = choose|j: int| 0 <= j < cols.len() && cols[j].name == name;
    assert(cols[j].name == name);
}

proof fn lemma_accepted_values_convert(
    cols: Seq<ColumnView>,
    fields: Seq<Seq<char>>,
    values: Seq<Value>,
    i: int,
    f: int,
)
    requires
        0 <= i <= f < fields.len(),
        first_incompatible(cols, fields, values, i) is None,
    ensures
        cell_of_value(values[f]) is Some,
    decreases f - i,
{
    if i < f {
        lemma_accepted_values_convert(cols, fields, values, i + 1, f);
    } else {
        lemma_compatible_converts(type_of(cols, fields[f]), values[f]);
    }
}

proof fn lemma_committed_keeps_names(cols: Seq<ColumnView>, pairs: Seq<(Seq<char>, CellView)>)
    ensures
        committed(cols, pairs).len() == cols.len(),
        forall|k: int|
            0 <= k < cols.len() ==> (#[trigger] committed(cols, pairs)[k]).name == cols[k].name
                && committed(cols, pairs)[k].data_type == cols[k].data_type,
        distinct_names(cols) ==> distinct_names(committed(cols, pairs)),
        has_name(cols, id_name()) ==> has_name(committed(cols, pairs), id_name()),
{
    if has_name(cols, id_name()) {
        let k = choose|k: int| 0 <= k < cols.len() && #[trigger] cols[k].name == id_name();
        assert(committed(cols, pairs)[k].name == id_name());
    }
}

/// Where the names of `pairs` are pairwise distinct, a name gets one cell if it
/// occurs among them and none otherwise.
proof fn lemma_cells_for_unique(pairs: Seq<(Seq<char>, CellView)>, name: Seq<char>)
    requires
        pairs.map_values(|p: (Seq<char>, CellView)| p.0).no_duplicates(),
    ensures
        cells_for(pairs, name).len() == if pairs.map_values(|p: (Seq<char>, CellView)| p.0).contains(
            name,
        ) {
            1int
        } else {
            0
        },
    decreases pairs.len(),
{
    let names = pairs.map_values(|p: (Seq<char>, CellView)| p.0);
    if pairs.len() > 0 {
        let rest = pairs.drop_last();
        let rest_names = rest.map_values(|p: (Seq<char>, CellView)| p.0);
        assert(rest_names =~= names.drop_last());
        assert(rest_names.no_duplicates());
        lemma_cells_for_unique(rest, name);
        if pairs.last().0 == name {
            assert(names[names.len() - 1] == name);
            if rest_names.contains(name) {
                let j = choose|j: int| 0 <= j < rest_names.len() && rest_names[j] == name;
                assert(names[j] == names[names.len() - 1]);
            }
            assert(names.contains(name));
        } else {
            if names.contains(name) {
                let j = choose|j: int| 0 <= j < names.len() && names[j] == name;
                assert(j != names.len() - 1);
                assert(rest_names[j] == name);
            }
            if rest_names.contains(name) {
                let j = choose|j: int| 0 <= j < rest_names.len() && rest_names[j] == name;
                assert(names[j] == name);
            }
        }
    }
}

/// A row of distinct plain fields that passed validation names every column
/// once; committing it to columns that all held `counter` cells leaves each
/// with one more.
proof fn lemma_commit_aligns(
    v: ContainerView,
    fields: Seq<Seq<char>>,
    values: Seq<Value>,
    id: i64,
    now: u64,
)
    requires
        well_formed(v),
        aligned_with_counter(v),
        plain_fields(fields),
        field_rejection(v, fields, values.len()) is None,
        !(v.add_timestamp && !has_name(v.columns, timestamp_name())),
    ensures
        aligned_with_counter(
            ContainerView {
                columns: committed(v.columns, staged(v.add_timestamp, id, now, fields, values)),
                counter: v.counter + 1,
                ..v
            },
        ),
{
    let pairs = staged(v.add_timestamp, id, now, fields, values);
    let names = pairs.map_values(|p: (Seq<char>, CellView)| p.0);
    let col_names = v.columns.map_values(|c: ColumnView| c.name);
    let head: Seq<Seq<char>> = seq![id_name()] + if v.add_timestamp {
        seq![timestamp_name()]
    } else {
        Seq::<Seq<char>>::empty()
    };
    assert(names =~= head + fields);
    assert(id_name().len() != timestamp_name().len());
    if v.add_timestamp {
        assert(!fields.contains(timestamp_name()));
    }
    assert forall|a: int, b: int| 0 <= a < names.len() && 0 <= b < names.len() && a != b implies names[a]
        != names[b] by {
        if a >= head.len() && b >= head.len() {
            assert(fields[a - head.len()] != fields[b - head.len()]);
        } else if a < head.len() && b >= head.len() {
            assert(fields.contains(fields[b - head.len()]));
        } else if b < head.len() && a >= head.len() {
            assert(fields.contains(fields[a - head.len()]));
        }
    }
    assert(names.no_duplicates());
    assert(col_names.no_duplicates()) by {
        assert forall|a: int, b: int|
            0 <= a < col_names.len() && 0 <= b < col_names.len() && a != b implies col_names[a]
            != col_names[b] by {
            assert(v.columns[a].name != v.columns[b].name);
        }
    }
    assert(names.to_set().subset_of(col_names.to_set())) by {
        assert forall|x: Seq<char>| names.to_set().contains(x) implies col_names.to_set().contains(
            x,
        ) by {
            let j = choose|j: int| 0 <= j < names.len() && names[j] == x;
            let has = if j == 0 {
                has_name(v.columns, id_name())
            } else if j < head.len() {
                has_name(v.columns, timestamp_name())
            } else {
                lemma_known_field(v, fields, values.len(), j - head.len());
                has_name(v.columns, fields[j - head.len()])
            };
            assert(has_name(v.columns, x));
            let k = choose|k: int| 0 <= k < v.columns.len() && #[trigger] v.columns[k].name == x;
            assert(col_names[k] == x);
        }
    }
    names.unique_seq_to_set();
    col_names.unique_seq_to_set();
    vstd::set_lib::lemma_subset_equality(names.to_set(), col_names.to_set());
    let post = committed(v.columns, pairs);
    assert forall|k: int| 0 <= k < post.len() implies #[trigger] post[k].entries.len() == v.counter
        + 1 by {
        assert(col_names.to_set().contains(col_names[k]));
        assert(names.to_set().contains(v.columns[k].name));
        lemma_cells_for_unique(pairs, v.columns[k].name);
    }
}

proof fn lemma_compatible_converts(t: DataType, v: Value)
    requires
        compatible(t, v),
    ensures
        cell_of_value(v) is Some,
{
}

impl Container {
    /// A container over a loaded layout and counter.
    pub fn new(config: SchemaConfig, index_counter: AutoIndex, columns: ColumnLayout) -> (r: Result<
        Self,
        ContainerError,
    >)
        requires
            index_counter@ >= 0,
        ensures
            r is Ok <==> distinct_names(columns@) && has_name(columns@, id_name()),
            r matches Ok(c) ==> c@ == (ContainerView {
                add_timestamp: config.add_timestamp_column,
                columns: columns@,
                counter: index_counter@,
            }) && well_formed(c@),
            r matches Err(e) ==> e@ == Rejection::CorruptLayout,
    {
        let names = columns.column_names();
        if columns.position(id_column_name()).is_none() {
            return Err(ContainerError::CorruptLayout);
        }
        let mut i: usize = 0;
        while i < names.len()
            invariant
                names@.len() == columns@.len(),
                forall|k: int| 0 <= k < columns@.len() ==> (#[trigger] names@[k])@ == columns@[k].name,
                i <= names@.len(),
                forall|a: int, b: int|
                    0 <= a < i && 0 <= b < columns@.len() && a != b ==> #[trigger] columns@[a].name
                        != #[trigger] columns@[b].name,
            decreases names@.len() - i,
        {
            let mut j: usize = 0;
            while j < names.len()
                invariant
                    names@.len() == columns@.len(),
                    forall|k: int|
                        0 <= k < columns@.len() ==> (#[trigger] names@[k])@ == columns@[k].name,
                    i < names@.len(),
                    j <= names@.len(),
                    forall|b: int|
                        0 <= b < j && i != b ==> columns@[i as int].name != #[trigger] columns@[b].name,
                decreases names@.len() - j,
            {
                if i != j && str_eq(names[i].as_str(), names[j].as_str()) {
                    return Err(ContainerError::CorruptLayout);
                }
                j = j + 1;
            }
            i = i + 1;
        }
        Ok(Container { config, columns, index_counter })
    }

    pub fn counter(&self) -> (r: i64)
        ensures
            r == self@.counter,
    {
        self.index_counter.counter()
    }

    pub fn layout(&self) -> (r: &ColumnLayout)
        ensures
            r@ == self@.columns,
    {
        &self.columns
    }

    pub fn config(&self) -> (r: &SchemaConfig)
        ensures
            r.add_timestamp_column == self@.add_timestamp,
    {
        &self.config
    }

    pub fn find_column(&self, column_name: &str) -> (r: Option<&Column>)
        ensures
            r is None <==> !has_name(self@.columns, column_name@),
            r matches Some(c) ==> exists|k: int|
                0 <= k < self@.columns.len() && self@.columns[k] == c@ && c@.name == column_name@,
    {
        let r = self.columns.find_column(column_name);
        proof {
            if let Some(c) = r {
                let k = choose|k: int|
                    0 <= k < self.columns@.len() && self.columns@[k] == c@ && c@.name == column_name@
                        && forall|j: int| 0 <= j < k ==> self.columns@[j].name != column_name@;
                assert(self@.columns[k] == c@);
            }
        }
        r
    }

    fn validate_fields(&self, params: &IndexParams) -> (r: Result<(), ContainerError>)
        requires
            well_formed(self@),
        ensures
            match field_rejection(self@, strings_view(params.fields@), params.values@.len()) {
                Some(rej) => r matches Err(e) && e@ == rej,
                None => r is Ok,
            },
    {
        let ghost fields = strings_view(params.fields@);
        let n_fields = params.fields.len();
        let n_columns = self.columns.len();
        let reserved: usize = if self.config.add_timestamp_column {
            2
        } else {
            1
        };
        if n_columns < reserved || n_columns - reserved != n_fields {
            let expected: usize = if n_columns >= reserved {
                n_columns - reserved
            } else {
                0
            };
            return Err(ContainerError::FieldCountMismatch(expected, n_fields));
        }
        proof {
            assert(fields.len() == user_column_count(self@));
        }
        if self.config.add_timestamp_column {
            let mut i: usize = 0;
            while i < n_fields
                invariant
                    fields.len() == user_column_count(self@),
                    self@.add_timestamp,
                    n_fields == params.fields@.len(),
                    fields == strings_view(params.fields@),
                    i <= n_fields,
                    forall|j: int| 0 <= j < i ==> fields[j] != timestamp_name(),
                decreases n_fields - i,
            {
                if str_eq(params.fields[i].as_str(), timestamp_column_name()) {
                    let mut names: Vec<String> = Vec::new();
                    names.push(timestamp_column_name().to_string());
                    proof {
                        assert(fields[i as int] == timestamp_name());
                        assert(fields.contains(timestamp_name()));
                        assert(strings_view(names@) =~= seq![timestamp_name()]);
                        assert(field_rejection(self@, fields, params.values@.len()) == Some(
                            Rejection::InvalidFields(seq![timestamp_name()]),
                        ));
                    }
                    return Err(ContainerError::InvalidFields(names));
                }
                i = i + 1;
            }
            proof {
                assert(!fields.contains(timestamp_name()));
            }
        }
        let mut invalid_fields: Vec<String> = Vec::new();
        let mut i: usize = 0;
        while i < n_fields
            invariant
                n_fields == params.fields@.len(),
                fields == strings_view(params.fields@),
                i <= n_fields,
                strings_view(invalid_fields@) == unknown_fields(self@.columns, fields.take(i as int)),
            decreases n_fields - i,
        {
            let ghost before = invalid_fields@;
            if self.columns.position(params.fields[i].as_str()).is_none() {
                invalid_fields.push(params.fields[i].clone());
            }
            proof {
                assert(fields.take(i + 1).drop_last() =~= fields.take(i as int));
                assert(strings_view(invalid_fields@) =~= unknown_fields(
                    self@.columns,
                    fields.take(i + 1),
                ));
            }
            i = i + 1;
        }
        proof {
            assert(fields.take(n_fields as int) =~= fields);
        }
        if invalid_fields.len() > 0 {
            return Err(ContainerError::InvalidFields(invalid_fields));
        }
        let mut misused: Vec<String> = Vec::new();
        let mut i: usize = 0;
        while i < n_fields
            invariant
                n_fields == params.fields@.len(),
                fields == strings_view(params.fields@),
                i <= n_fields,
                strings_view(misused@) == misused_fields(fields.take(i as int)),
            decreases n_fields - i,
        {
            let name = params.fields[i].as_str();
            let mut repeated = str_eq(name, id_column_name());
            let mut j: usize = 0;
            while j < i
                invariant
                    n_fields == params.fields@.len(),
                    fields == strings_view(params.fields@),
                    i < n_fields,
                    j <= i,
                    name@ == fields[i as int],
                    repeated == (fields[i as int] == id_name() || exists|k: int|
                        0 <= k < j && fields[k] == fields[i as int]),
                decreases i - j,
            {
                let same = str_eq(params.fields[j].as_str(), name);
                proof {
                    assert(fields[j as int] == params.fields@[j as int]@);
                    if same {
                        assert(fields[j as int] == fields[i as int]);
                    }
                    if exists|k: int| 0 <= k < j + 1 && fields[k] == fields[i as int] {
                        if !(exists|k: int| 0 <= k < j && fields[k] == fields[i as int]) {
                            let k = choose|k: int| 0 <= k < j + 1 && fields[k] == fields[i as int];
                            assert(k == j);
                        }
                    }
                }
                if same {
                    repeated = true;
                }
                j = j + 1;
            }
            let ghost before = misused@;
            if repeated {
                misused.push(params.fields[i].clone());
            }
            proof {
                let t = fields.take(i + 1);
                assert(t.drop_last() =~= fields.take(i as int));
                assert(t.last() == fields[i as int]);
                assert(repeated == (t.last() == id_name() || t.drop_last().contains(t.last()))) by {
                    if t.drop_last().contains(t.last()) {
                        let k = choose|k: int| 0 <= k < t.drop_last().len() && t.drop_last()[k] == t.last();
                        assert(fields[k] == fields[i as int]);
                    }
                    if exists|k: int| 0 <= k < i && fields[k] == fields[i as int] {
                        let k = choose|k: int| 0 <= k < i && fields[k] == fields[i as int];
                        assert(t.drop_last()[k] == t.last());
                    }
                }
                assert(strings_view(misused@) =~= misused_fields(t));
            }
            i = i + 1;
        }
        if misused.len() > 0 {
            return Err(ContainerError::InvalidFields(misused));
        }
        if n_fields != params.values.len() {
            return Err(ContainerError::FieldCountMismatch(n_fields, params.values.len()));
        }
        Ok(())
    }

    /// Takes back the identifier of a row that was not committed.
    fn rollback(&mut self)
        requires
            old(self)@.counter > 0,
        ensures
            final(self)@ == (ContainerView { counter: old(self)@.counter - 1, ..old(self)@ }),
    {
        self.index_counter.rollback();
    }

    /// Validates a row, allocates its identifier, stamps it with `now_secs`
    /// where a timestamp column is kept, and appends one cell per staged pair
    /// to its column. Returns, in order, each column name with the record to
    /// append to that column's log; the counter is then to be persisted.
    pub fn index(&mut self, params: IndexParams, now_secs: u64) -> (r: Result<
        Vec<(String, Vec<u8>)>,
        ContainerError,
    >)
        requires
            well_formed(old(self)@),
            old(self)@.counter < COUNTER_MAX,
            values_storable(params.values@),
        ensures
            well_formed(final(self)@),
            match index_rejection(old(self)@, strings_view(params.fields@), params.values@) {
                Some(rej) => r matches Err(e) && e@ == rej && final(self)@ == old(self)@,
                None => r is Ok,
            },
            r matches Ok(records) ==> {
                let pairs = staged(
                    old(self)@.add_timestamp,
                    (old(self)@.counter + 1) as i64,
                    now_secs,
                    strings_view(params.fields@),
                    params.values@,
                );
                &&& final(self)@ == ContainerView {
                    columns: committed(old(self)@.columns, pairs),
                    counter: old(self)@.counter + 1,
                    ..old(self)@
                }
                &&& records@.len() == pairs.len()
                &&& forall|i: int|
                    0 <= i < pairs.len() ==> (#[trigger] records@[i]).0@ == pairs[i].0
                        && records@[i].1@ == record_of(pairs[i].1)
            },
            r is Ok && aligned_with_counter(old(self)@) ==> aligned_with_counter(final(self)@),
    {
        match self.validate_fields(&params) {
            Ok(()) => {},
            Err(e) => {
                return Err(e);
            },
        }
        let ghost old_view = self@;
        let ghost fields = strings_view(params.fields@);
        let ghost all_values = params.values@;
        let IndexParams { fields: field_names, values } = params;
        let mut values = values;
        let mut to_be_inserted: Vec<(String, Cell)> = Vec::new();
        let id = self.index_counter.next();
        to_be_inserted.push((id_column_name().to_string(), Cell::Int(id)));
        if self.config.add_timestamp_column {
            if self.columns.timestamp_column().is_some() {
                to_be_inserted.push((timestamp_column_name().to_string(), Cell::Int(#[verifier::truncate] (now_secs as i64))));
            } else {
                self.rollback();
                return Err(ContainerError::MissingTimestampColumn);
            }
        }
        let ghost head = staged_view(to_be_inserted@);
        proof {
            assert(head =~= staged(old_view.add_timestamp, id, now_secs, fields, all_values).take(
                head.len() as int,
            ));
        }
        let n = field_names.len();
        let mut i: usize = 0;
        while i < n
            invariant
                self@ == (ContainerView { counter: old_view.counter + 1, ..old_view }),
                well_formed(old_view),
                old_view.counter + 1 == id,
                n == field_names@.len(),
                fields == strings_view(field_names@),
                fields == strings_view(params.fields@),
                all_values == params.values@,
                old_view == old(self)@,
                values@ == all_values,
                all_values.len() == n,
                field_rejection(old_view, fields, all_values.len()) is None,
                !(old_view.add_timestamp && !has_name(old_view.columns, timestamp_name())),
                i <= n,
                first_incompatible(old_view.columns, fields, all_values, 0)
                    == first_incompatible(old_view.columns, fields, all_values, i as int),
                head.len() == if old_view.add_timestamp {
                    2int
                } else {
                    1
                },
                staged_view(to_be_inserted@) == staged(
                    old_view.add_timestamp,
                    id,
                    now_secs,
                    fields,
                    all_values,
                ).take(head.len() + i),
            decreases n - i,
        {
            proof {
                lemma_known_field(old_view, fields, all_values.len(), i as int);
                assert(fields[i as int] == field_names@[i as int]@);
            }
            let column = self.columns.find_column(field_names[i].as_str()).unwrap();
            let t = *column.data_type();
            proof {
                let k = choose|k: int|
                    0 <= k < old_view.columns.len() && old_view.columns[k] == column@
                        && column@.name == fields[i as int];
                lemma_type_of(old_view.columns, fields[i as int], k);
                assert(t == type_of(old_view.columns, fields[i as int]));
            }
            if t.is_compatible(&values[i]) {
                proof {
                    lemma_compatible_converts(t, values@[i as int]);
                }
                let cell = Cell::from_json_value(&values[i]).unwrap();
                proof {
                    assert(first_incompatible(old_view.columns, fields, all_values, i as int)
                        == first_incompatible(old_view.columns, fields, all_values, i + 1));
                }
                let ghost before = to_be_inserted@;
                to_be_inserted.push((field_names[i].clone(), cell));
                proof {
                    let full = staged(old_view.add_timestamp, id, now_secs, fields, all_values);
                    assert(full[head.len() + i] == (fields[i as int], cell@));
                    assert(staged_view(to_be_inserted@) =~= staged_view(before).push(
                        (fields[i as int], cell@),
                    ));
                    assert(full.take(head.len() + i + 1) =~= full.take(head.len() + i).push(
                        full[head.len() + i],
                    ));
                    assert(staged_view(to_be_inserted@) =~= full.take(head.len() + i + 1));
                }
            } else {
                self.rollback();
                let v = values.remove(i);
                proof {
                    assert(first_incompatible(old_view.columns, fields, all_values, i as int) == Some(
                        i as int,
                    ));
                    assert(v == all_values[i as int]);
                    assert(self@ == old_view);
                    assert(index_rejection(old_view, fields, all_values) == Some(
                        Rejection::InvalidDataType(v, t),
                    ));
                }
                return Err(ContainerError::InvalidDataType(v, t));
            }
            i = i + 1;
        }
        let ghost pairs = staged(old_view.add_timestamp, id, now_secs, fields, all_values);
        proof {
            assert(staged_view(to_be_inserted@) =~= pairs);
            assert(first_incompatible(old_view.columns, fields, all_values, n as int) is None);
            assert forall|j: int| 0 <= j < to_be_inserted@.len() implies storable(
                (#[trigger] to_be_inserted@[j]).1@,
            ) by {
                assert(to_be_inserted@[j].1@ == pairs[j].1);
                if j >= head.len() {
                    let f = j - head.len();
                    assert(pairs[j].1 == cell_of_value(all_values[f])->Some_0);
                    assert(cell_of_value(all_values[f]) is Some) by {
                        lemma_accepted_values_convert(old_view.columns, fields, all_values, 0, f);
                    }
                }
            }
            assert forall|j: int| 0 <= j < to_be_inserted@.len() implies has_name(
                self@.columns,
                (#[trigger] to_be_inserted@[j]).0@,
            ) by {
                assert(to_be_inserted@[j].0@ == pairs[j].0);
                if j >= head.len() {
                    lemma_known_field(old_view, fields, all_values.len(), j - head.len());
                }
            }
        }
        let records = self.columns.commit(to_be_inserted);
        proof {
            assert(self@.columns == committed(old_view.columns, pairs));
            lemma_committed_keeps_names(old_view.columns, pairs);
            if aligned_with_counter(old_view) {
                lemma_misused_empty(fields);
                lemma_commit_aligns(old_view, fields, all_values, id, now_secs);
            }
        }
        Ok(records)
    }

    /// Whether every column holds as many cells as the first.
    pub fn is_aligned(&self) -> (r: bool)
        ensures
            r == aligned(self@.columns),
    {
        self.columns.is_aligned()
    }

    /// The rows of the container, in insertion order. The columns must all
    /// hold the same number of cells (see `is_aligned`).
    pub fn query(&self) -> (r: Vec<ColumnFrame>)
        requires
            aligned(self@.columns),
        ensures
            frames_view(r@) == rows_of(self@.columns),
    {
        self.columns.all_rows()
    }

    /// Opens a container from what was persisted: the counter, the layout
    /// where one was written (else the fresh layout of `config`, in schema
    /// order), and the log of each of its columns, in layout order.
    pub fn open(
        config: SchemaConfig,
        persisted_counter: Option<i64>,
        persisted_layout: Option<Vec<(String, DataType)>>,
        logs: &[Vec<u8>],
    ) -> (r: Result<Self, ContainerError>)
        requires
            logs@.len() == opened_pairs(config, persisted_layout).len(),
            forall|k: int| 0 <= k < logs@.len() ==> parse_log(#[trigger] logs@[k]@) is Ok,
        ensures
            ({
                let pairs = opened_pairs(config, persisted_layout);
                let cols = Seq::new(
                    pairs.len(),
                    |k: int| loaded_view(pairs[k].0, pairs[k].1, logs@[k]@),
                );
                &&& r is Ok <==> distinct_names(cols) && has_name(cols, id_name())
                &&& r matches Ok(c) ==> c@ == ContainerView {
                    add_timestamp: config.add_timestamp_column,
                    columns: cols,
                    counter: match persisted_counter {
                        Some(n) => if n >= 0 {
                            n as int
                        } else {
                            0
                        },
                        None => 0,
                    },
                } && well_formed(c@)
                &&& r matches Err(e) ==> e@ == Rejection::CorruptLayout
            }),
    {
        let ghost expected = opened_pairs(config, persisted_layout);
        let (pairs, _fresh) = ColumnLayout::layout_for(&config, persisted_layout);
        proof {
            assert(pairs_view(pairs@) =~= expected);
        }
        let mut layout = ColumnLayout::new();
        layout.load(pairs.as_slice(), logs);
        proof {
            let cols = Seq::new(
                expected.len(),
                |k: int| loaded_view(expected[k].0, expected[k].1, logs@[k]@),
            );
            assert forall|k: int| 0 <= k < expected.len() implies #[trigger] pairs_view(pairs@)[k]
                == (pairs@[k].0@, pairs@[k].1) by {}
            assert(layout@ =~= cols);
        }
        let counter = AutoIndex::from_persisted(persisted_counter);
        Container::new(config, counter, layout)
    }
}

/// A row that names `timestamp` is rejected where the container keeps its own
/// timestamp column.
pub proof fn lemma_reserved_timestamp(v: ContainerView, fields: Seq<Seq<char>>, values: Seq<Value>)
    requires
        v.add_timestamp,
        fields.contains(timestamp_name()),
    ensures
        index_rejection(v, fields, values) matches Some(rej) && (rej is FieldCountMismatch
            || rej == Rejection::InvalidFields(seq![timestamp_name()])),
{
}

/// Where no timestamp column is kept or laid out, `timestamp` is an ordinary
/// field name: a row of the right width that names it is rejected only as
/// naming an unknown column.
pub proof fn lemma_timestamp_unreserved(
    v: ContainerView,
    fields: Seq<Seq<char>>,
    values: Seq<Value>,
)
    requires
        !v.add_timestamp,
        !has_name(v.columns, timestamp_name()),
        fields.len() == user_column_count(v),
        fields.contains(timestamp_name()),
    ensures
        index_rejection(v, fields, values) == Some(
            Rejection::InvalidFields(unknown_fields(v.columns, fields)),
        ),
        unknown_fields(v.columns, fields).contains(timestamp_name()),
{
    let i = choose|i: int| 0 <= i < fields.len() && fields[i] == timestamp_name();
    lemma_unknown_contains(v.columns, fields, i);
}

proof fn lemma_unknown_contains(cols: Seq<ColumnView>, fields: Seq<Seq<char>>, i: int)
    requires
        0 <= i < fields.len(),
        !has_name(cols, fields[i]),
    ensures
        unknown_fields(cols, fields).contains(fields[i]),
    decreases fields.len(),
{
    let u = unknown_fields(cols, fields);
    if i == fields.len() - 1 {
        assert(u[u.len() - 1] == fields[i]);
    } else {
        lemma_unknown_contains(cols, fields.drop_last(), i);
        let rest = unknown_fields(cols, fields.drop_last());
        let j = choose|j: int| 0 <= j < rest.len() && rest[j] == fields[i];
        assert(u[j] == fields[i]);
    }
}

} // verus!
