//! The dialect descriptor: one of three supported backends, its
//! placeholder style, its catalog-introspection query text, and whether
//! constraints may be added after table creation. Pure lookup throughout;
//! sniffing a driver from a connection string reads only its prefix.

use vstd::prelude::*;
use crate::text::{db_name_of, dec_of, has_prefix, str_has_prefix, usize_to_string};
use crate::value::{Value, ValueModel};

verus! {

/// A supported database backend.
#[derive(Debug, Clone, Copy, PartialEq, Eq, Structural)]
pub enum Drivers {
    /// PostgreSQL-style backend: numbered `$n` placeholders.
    Postgres,
    /// MySQL-style backend: positional `?` placeholders.
    MySQL,
    /// SQLite-style backend: positional `?` placeholders, no post-hoc
    /// constraints, pragma-style catalog queries.
    SQLite,
}

/// The character that opens every rendered placeholder of the dialect:
/// `$` for Postgres-style backends, `?` otherwise.
pub open spec fn marker(driver: Drivers) -> char {
    if driver == Drivers::Postgres {
        '$'
    } else {
        '?'
    }
}

/// The placeholder text for the 1-based argument index `idx`.
pub open spec fn spec_placeholder(driver: Drivers, idx: nat) -> Seq<char> {
    if driver == Drivers::Postgres {
        seq!['$'] + dec_of(idx)
    } else {
        seq!['?']
    }
}

/// A rendered placeholder contains its marker exactly once.
pub proof fn lemma_placeholder_marker_count(driver: Drivers, idx: nat)
    ensures
        crate::text::count_char(spec_placeholder(driver, idx), marker(driver)) == 1,
{
    if driver == Drivers::Postgres {
        crate::text::lemma_count_char_single('$', '$');
        crate::text::lemma_dec_of_count(idx, '$');
        crate::text::lemma_count_char_concat(seq!['$'], dec_of(idx), '$');
    } else {
        crate::text::lemma_count_char_single('?', '?');
    }
}

/// Renders the placeholder for the 1-based argument index `idx`.
pub fn placeholder(driver: Drivers, idx: usize) -> (r: String)
    ensures
        r@ == spec_placeholder(driver, idx as nat),
{
    match driver {
        Drivers::Postgres => {
            let s = String::from_str("$");
            proof {
                reveal_strlit("$");
            }
            assert(s@ =~= seq!['$']);
            let n = usize_to_string(idx);
            s.concat(n.as_str())
        },
        _ => {
            let s = String::from_str("?");
            proof {
                reveal_strlit("?");
            }
            assert(s@ =~= seq!['?']);
            s
        },
    }
}

/// Whether `ALTER TABLE ... ADD CONSTRAINT` is legal after creation.
/// SQLite-style backends refuse it, so foreign-key attachment is skipped
/// there.
pub fn supports_post_hoc_constraints(driver: Drivers) -> (r: bool)
    ensures
        r == (driver != Drivers::SQLite),
{
    match driver {
        Drivers::SQLite => false,
        _ => true,
    }
}

/// The driver named by a connection string: a `postgres...` prefix means
/// Postgres, a `mysql...` prefix means MySQL, and anything else falls back
/// to SQLite.
pub open spec fn spec_sniff_driver(url: Seq<char>) -> Drivers {
    if has_prefix(url, "postgres"@) {
        Drivers::Postgres
    } else if has_prefix(url, "mysql"@) {
        Drivers::MySQL
    } else {
        Drivers::SQLite
    }
}

/// Detects the backend dialect from a connection string prefix; unmatched
/// prefixes default to the SQLite-style dialect.
pub fn sniff_driver(url: &str) -> (r: Drivers)
    ensures
        r == spec_sniff_driver(url@),
{
    if str_has_prefix(url, "postgres") {
        Drivers::Postgres
    } else if str_has_prefix(url, "mysql") {
        Drivers::MySQL
    } else {
        Drivers::SQLite
    }
}

/// The catalog query that reports whether `table` exists, with its bound
/// arguments. Postgres and MySQL consult `information_schema.tables`;
/// SQLite counts matching entries of `sqlite_master`. All three bind the
/// table name, normalized to database format.
pub fn table_exists_sql(driver: Drivers, table: &str) -> (r: (String, Vec<Value>))
    ensures
        driver == Drivers::Postgres ==> r.0@
            == "SELECT EXISTS (SELECT FROM information_schema.tables WHERE table_name = $1 AND table_schema = 'public')"@,
        driver == Drivers::MySQL ==> r.0@
            == "SELECT EXISTS (SELECT FROM information_schema.tables WHERE table_name = ? AND table_schema = DATABASE())"@,
        driver == Drivers::SQLite ==> r.0@
            == "SELECT count(*) FROM sqlite_master WHERE type='table' AND name=?"@,
        r.1.deep_view() =~= seq![ValueModel::Text(db_name_of(table@))],
{
    let sql = match driver {
        Drivers::Postgres => String::from_str(
            "SELECT EXISTS (SELECT FROM information_schema.tables WHERE table_name = $1 AND table_schema = 'public')",
        ),
        Drivers::MySQL => String::from_str(
            "SELECT EXISTS (SELECT FROM information_schema.tables WHERE table_name = ? AND table_schema = DATABASE())",
        ),
        Drivers::SQLite => String::from_str(
            "SELECT count(*) FROM sqlite_master WHERE type='table' AND name=?",
        ),
    };
    let name = crate::text::db_name(table);
    let mut args: Vec<Value> = Vec::new();
    args.push(Value::text(name.as_str()));
    (sql, args)
}

/// The catalog query that lists the columns of `table`, with its bound
/// arguments. Postgres and MySQL consult `information_schema.columns` and
/// bind the table name; SQLite embeds it in a pragma. The name is
/// normalized to database format first.
pub fn table_columns_sql(driver: Drivers, table: &str) -> (r: (String, Vec<Value>))
    ensures
        driver == Drivers::Postgres ==> r.0@
            == "SELECT column_name::TEXT FROM information_schema.columns WHERE table_name = $1 AND table_schema = 'public'"@
            && r.1.deep_view() =~= seq![ValueModel::Text(db_name_of(table@))],
        driver == Drivers::MySQL ==> r.0@
            == "SELECT column_name FROM information_schema.columns WHERE table_name = ? AND table_schema = DATABASE()"@
            && r.1.deep_view() =~= seq![ValueModel::Text(db_name_of(table@))],
        driver == Drivers::SQLite ==> r.0@ == "PRAGMA table_info(\""@ + db_name_of(table@)
            + "\")"@ && r.1.deep_view() =~= Seq::<ValueModel>::empty(),
{
    match driver {
        Drivers::Postgres => {
            let sql = String::from_str(
                "SELECT column_name::TEXT FROM information_schema.columns WHERE table_name = $1 AND table_schema = 'public'",
            );
            let name = crate::text::db_name(table);
            let mut args: Vec<Value> = Vec::new();
            args.push(Value::text(name.as_str()));
            (sql, args)
        },
        Drivers::MySQL => {
            let sql = String::from_str(
                "SELECT column_name FROM information_schema.columns WHERE table_name = ? AND table_schema = DATABASE()",
            );
            let name = crate::text::db_name(table);
            let mut args: Vec<Value> = Vec::new();
            args.push(Value::text(name.as_str()));
            (sql, args)
        },
        Drivers::SQLite => {
            let name = crate::text::db_name(table);
            let sql = String::from_str("PRAGMA table_info(\"").concat(name.as_str()).concat(
                "\")",
            );
            let args: Vec<Value> = Vec::new();
            (sql, args)
        },
    }
}

/// The catalog query that lists the indexes of `table`, with its bound
/// arguments. Postgres consults `pg_indexes`, MySQL
/// `information_schema.STATISTICS`, and SQLite an index-list pragma.
pub fn table_indexes_sql(driver: Drivers, table: &str) -> (r: (String, Vec<Value>))
    ensures
        driver == Drivers::Postgres ==> r.0@
            == "SELECT indexname::TEXT FROM pg_indexes WHERE tablename = $1 AND schemaname = 'public'"@
            && r.1.deep_view() =~= seq![ValueModel::Text(db_name_of(table@))],
        driver == Drivers::MySQL ==> r.0@
            == "SELECT INDEX_NAME FROM information_schema.STATISTICS WHERE TABLE_NAME = ? AND TABLE_SCHEMA = DATABASE()"@
            && r.1.deep_view() =~= seq![ValueModel::Text(db_name_of(table@))],
        driver == Drivers::SQLite ==> r.0@ == "PRAGMA index_list(\""@ + db_name_of(table@)
            + "\")"@ && r.1.deep_view() =~= Seq::<ValueModel>::empty(),
{
    match driver {
        Drivers::Postgres => {
            let sql = String::from_str(
                "SELECT indexname::TEXT FROM pg_indexes WHERE tablename = $1 AND schemaname = 'public'",
            );
            let name = crate::text::db_name(table);
            let mut args: Vec<Value> = Vec::new();
            args.push(Value::text(name.as_str()));
            (sql, args)
        },
        Drivers::MySQL => {
            let sql = String::from_str(
                "SELECT INDEX_NAME FROM information_schema.STATISTICS WHERE TABLE_NAME = ? AND TABLE_SCHEMA = DATABASE()",
            );
            let name = crate::text::db_name(table);
            let mut args: Vec<Value> = Vec::new();
            args.push(Value::text(name.as_str()));
            (sql, args)
        },
        Drivers::SQLite => {
            let name = crate::text::db_name(table);
            let sql = String::from_str("PRAGMA index_list(\"").concat(name.as_str()).concat(
                "\")",
            );
            let args: Vec<Value> = Vec::new();
            (sql, args)
        },
    }
}

/// Reads the answer of the table-existence catalog query: SQLite reports a
/// match count, the other backends a boolean.
pub fn interpret_table_exists(driver: Drivers, v: &Value) -> (r: Result<
    bool,
    crate::error::OrmError,
>)
    ensures
        driver == Drivers::SQLite ==> (match v@ {
            ValueModel::Int(c) => r matches Ok(b) && b == (c > 0),
            _ => r is Err,
        }),
        driver != Drivers::SQLite ==> (match v@ {
            ValueModel::Bool(b) => r matches Ok(rb) && rb == b,
            ValueModel::Int(c) => r matches Ok(rb) && rb == (c > 0),
            _ => r is Err,
        }),
{
    match driver {
        Drivers::SQLite => {
            match v {
                Value::Int(c) => Ok(*c > 0),
                _ => Err(crate::error::OrmError::DecodeError(String::from_str("count(*)"))),
            }
        },
        _ => {
            match v {
                Value::Bool(b) => Ok(*b),
                Value::Int(c) => Ok(*c > 0),
                _ => Err(crate::error::OrmError::DecodeError(String::from_str("exists"))),
            }
        },
    }
}

} // verus!
