//! The row/metadata contracts a modeled type supplies: its table name, an
//! ordered list of column descriptors, its active (insertable) column
//! names, and a value-map projection of an instance used for INSERT
//! argument construction.

use vstd::prelude::*;

verus! {

/// Metadata about one declared database column.
#[derive(Debug, Clone, Copy)]
pub struct ColumnInfo {
    /// The column name as declared on the modeled type.
    pub name: &'static str,
    /// The SQL type of the column (e.g. `TEXT`, `INTEGER`, `TIMESTAMPTZ`).
    pub sql_type: &'static str,
    /// Whether this column is the primary key.
    pub is_primary_key: bool,
    /// Whether this column allows NULL values.
    pub is_nullable: bool,
    /// Whether this column holds the creation timestamp.
    pub create_time: bool,
    /// Whether this column holds the last-modification timestamp.
    pub update_time: bool,
    /// Whether this column carries a UNIQUE constraint.
    pub unique: bool,
    /// Whether an index should be created for this column.
    pub index: bool,
    /// The referenced table, when this column is a foreign key.
    pub foreign_table: Option<&'static str>,
    /// The referenced column, when this column is a foreign key.
    pub foreign_key: Option<&'static str>,
    /// Whether the column is left out of the automatic projection.
    pub omit: bool,
    /// Whether this column marks soft-deleted rows.
    pub soft_delete: bool,
}

/// A column-name-to-serialized-value projection of one model instance,
/// used to construct INSERT arguments.
pub type ValueMap = Vec<(String, String)>;

/// The first value stored under `key`, if any.
pub open spec fn spec_map_get(m: Seq<(Seq<char>, Seq<char>)>, key: Seq<char>) -> Option<Seq<char>>
    decreases m.len(),
{
    if m.len() == 0 {
        None
    } else if m[0].0 == key {
        Some(m[0].1)
    } else {
        spec_map_get(m.drop_first(), key)
    }
}

/// Looks up the serialized value stored under `key`.
pub fn map_get(m: &ValueMap, key: &String) -> (r: Option<String>)
    ensures
        match r {
            Some(v) => spec_map_get(m.deep_view(), key@) == Some(v@),
            None => spec_map_get(m.deep_view(), key@) is None,
        },
{
    let mut i: usize = 0;
    proof {
        assert(m.deep_view().skip(0) =~= m.deep_view());
    }
    while i < m.len()
        invariant
            0 <= i <= m@.len(),
            spec_map_get(m.deep_view(), key@) == spec_map_get(
                m.deep_view().skip(i as int),
                key@,
            ),
        decreases m@.len() - i,
    {
        let ghost rest = m.deep_view().skip(i as int);
        proof {
            assert(rest[0] == m.deep_view()[i as int]);
            assert(m.deep_view()[i as int] == m@[i as int].deep_view());
            assert(rest.drop_first() =~= m.deep_view().skip(i + 1));
        }
        if m[i].0 == *key {
            return Some(m[i].1.clone());
        }
        i = i + 1;
    }
    proof {
        assert(m.deep_view().skip(m@.len() as int) =~= Seq::<(Seq<char>, Seq<char>)>::empty());
    }
    None
}

/// The contract a modeled type registers ahead of use: table name, column
/// descriptors and active column names. Implemented per type by the
/// embedding application's code-generation layer.
pub trait Model {
    /// The table name associated with this model, as declared.
    fn table_name() -> &'static str;

    /// The ordered column descriptors of this model.
    fn columns() -> Vec<ColumnInfo>;

    /// The names of the active (insertable) columns, as declared.
    fn active_columns() -> Vec<&'static str>;

    /// The column-name-to-serialized-value projection of this instance.
    fn to_map(&self) -> ValueMap;
}

/// Metadata about one column of an arbitrary projection (DTO) type.
#[derive(Debug, Clone, Copy)]
pub struct AnyInfo {
    /// The name of the column.
    pub column: &'static str,
    /// The SQL type of the column.
    pub sql_type: &'static str,
}

/// A projection type that can report its column metadata; implemented per
/// DTO by the embedding application.
pub trait AnyImpl {
    /// The columns associated with this type.
    fn columns() -> Vec<AnyInfo>;
}

} // verus!
