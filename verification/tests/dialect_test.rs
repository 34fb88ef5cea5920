use bottle_orm::db::DatabaseBuilder;
use bottle_orm::dialect::{
    placeholder, sniff_driver, supports_post_hoc_constraints, table_exists_sql, Drivers,
};
use bottle_orm::value::Value;

#[test]
fn test_sniff_driver_by_prefix() {
    assert_eq!(sniff_driver("postgres://db.example/app"), Drivers::Postgres);
    assert_eq!(sniff_driver("postgresql://db.example/app"), Drivers::Postgres);
    assert_eq!(sniff_driver("mysql://db.example/app"), Drivers::MySQL);
    assert_eq!(sniff_driver("sqlite::memory:"), Drivers::SQLite);
    // an unmatched prefix falls back to the SQLite-like dialect
    assert_eq!(sniff_driver("oracle://db.example/app"), Drivers::SQLite);
    assert_eq!(sniff_driver(""), Drivers::SQLite);
}

#[test]
fn test_placeholder_styles() {
    assert_eq!(placeholder(Drivers::Postgres, 1), "$1");
    assert_eq!(placeholder(Drivers::Postgres, 17), "$17");
    assert_eq!(placeholder(Drivers::Postgres, 120), "$120");
    assert_eq!(placeholder(Drivers::MySQL, 17), "?");
    assert_eq!(placeholder(Drivers::SQLite, 3), "?");
}

#[test]
fn test_post_hoc_constraint_support() {
    assert!(supports_post_hoc_constraints(Drivers::Postgres));
    assert!(supports_post_hoc_constraints(Drivers::MySQL));
    assert!(!supports_post_hoc_constraints(Drivers::SQLite));
}

#[test]
fn test_table_exists_catalog_text() {
    let (pg, pg_args) = table_exists_sql(Drivers::Postgres, "user");
    assert_eq!(
        pg,
        "SELECT EXISTS (SELECT FROM information_schema.tables \
         WHERE table_name = $1 AND table_schema = 'public')"
    );
    assert_eq!(pg_args.len(), 1);
    assert!(matches!(&pg_args[0], Value::Text(s) if s == "user"));

    let (lite, lite_args) = table_exists_sql(Drivers::SQLite, "user");
    assert_eq!(
        lite,
        "SELECT count(*) FROM sqlite_master WHERE type='table' AND name=?"
    );
    assert_eq!(lite_args.len(), 1);
}

#[test]
fn test_database_builder_configuration() {
    let b = DatabaseBuilder::new();
    assert_eq!(b.max_connections, 5);
    let b = b.max_connections(25);
    assert_eq!(b.max_connections, 25);
    assert_eq!(b.driver_for("postgres://x"), Drivers::Postgres);
}
