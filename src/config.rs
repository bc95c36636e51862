//! The schema a container is created with.
use vstd::prelude::*;

verus! {

/// A column type as the schema file names it.
#[derive(Debug, Clone, Copy, PartialEq, Eq, Structural)]
pub enum DataTypeConfig {
    Int,
    Float,
    String,
    Boolean,
}

/// One user column of the schema.
#[derive(Debug, Clone)]
pub struct ColumnConfig {
    pub name: String,
    pub data_type: DataTypeConfig,
}

/// The user columns in order, and whether an automatic `timestamp` column is kept.
#[derive(Debug, Clone)]
pub struct SchemaConfig {
    pub columns: Vec<ColumnConfig>,
    /// Indicates whether there should be an automatically generated timestamp column.
    pub add_timestamp_column: bool,
}

/// Knows the directory that holds the schema file.
#[derive(Debug)]
pub struct Configurator {
    root_path: String,
}

impl View for Configurator {
    type V = Seq<char>;

    /// The directory that holds `schema.json`.
    closed spec fn view(&self) -> Seq<char> {
        self.root_path@
    }
}

impl Configurator {
    pub fn new(root_path: &str) -> (r: Self)
        ensures
            r@ == root_path@,
    {
        Configurator { root_path: root_path.to_string() }
    }

    pub fn root_path(&self) -> (r: &str)
        ensures
            r@ == self@,
    {
        self.root_path.as_str()
    }
}

} // verus!
