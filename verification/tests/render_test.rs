use bottle_orm::builder::{FilterGroup, QueryBuilder};
use bottle_orm::dialect::Drivers;
use bottle_orm::filter::Op;
use bottle_orm::model::ColumnInfo;
use bottle_orm::value::Value;

fn col(name: &'static str, sql_type: &'static str) -> ColumnInfo {
    ColumnInfo {
        name,
        sql_type,
        is_primary_key: false,
        is_nullable: false,
        create_time: false,
        update_time: false,
        unique: false,
        index: false,
        foreign_table: None,
        foreign_key: None,
        omit: false,
        soft_delete: false,
    }
}

fn user_builder(driver: Drivers) -> QueryBuilder {
    let columns = vec![col("id", "INTEGER"), col("name", "TEXT"), col("age", "INTEGER")];
    let actives: Vec<&'static str> = vec!["id", "name", "age"];
    QueryBuilder::new(driver, "TestUser", columns, &actives)
}

fn is_text(v: &Value, s: &str) -> bool {
    matches!(v, Value::Text(t) if t == s)
}

fn is_int(v: &Value, x: i64) -> bool {
    matches!(v, Value::Int(i) if *i == x)
}

#[test]
fn test_select_all_active_columns() {
    let q = user_builder(Drivers::SQLite);
    let (sql, args) = q.build_query();
    assert_eq!(
        sql,
        "SELECT \"test_user\".\"id\" AS \"test_user__id\", \
         \"test_user\".\"name\" AS \"test_user__name\", \
         \"test_user\".\"age\" AS \"test_user__age\" FROM \"test_user\""
    );
    assert_eq!(args.len(), 0);
}

#[test]
fn test_filter_and_or_filter() {
    let q = user_builder(Drivers::SQLite)
        .filter("name", Op::Eq, Value::text("Alice"))
        .or_filter("name", Op::Eq, Value::text("Bob"));
    let (sql, args) = q.build_query();
    assert!(sql.ends_with(" FROM \"test_user\" WHERE name = ? OR name = ?"));
    assert_eq!(args.len(), 2);
    assert!(is_text(&args[0], "Alice"));
    assert!(is_text(&args[1], "Bob"));
}

#[test]
fn test_postgres_placeholder_numbering() {
    let q = user_builder(Drivers::Postgres)
        .filter("name", Op::Eq, Value::text("Alice"))
        .filter("age", Op::Gt, Value::Int(30))
        .between("age", Value::Int(20), Value::Int(40));
    let (sql, args) = q.build_query();
    assert!(sql.ends_with(
        " WHERE name = $1 AND age > $2 AND age BETWEEN $3 AND $4"
    ));
    assert_eq!(args.len(), 4);
    assert!(is_int(&args[3], 40));
}

#[test]
fn test_or_group_renders_parenthesized_branch() {
    let group = FilterGroup::new()
        .filter("active", Op::Eq, Value::Int(1))
        .filter("age", Op::Gt, Value::Int(30));
    let q = user_builder(Drivers::SQLite)
        .filter("name", Op::Eq, Value::text("David"))
        .or_group(group);
    let (sql, args) = q.build_query();
    assert!(sql.ends_with(" WHERE name = ? OR (active = ? AND age > ?)"));
    assert_eq!(args.len(), 3);
    assert!(is_text(&args[0], "David"));
    assert!(is_int(&args[1], 1));
    assert!(is_int(&args[2], 30));
}

#[test]
fn test_not_filter_and_in_list_and_is_null() {
    let q = user_builder(Drivers::SQLite)
        .not_filter("name", Op::Eq, Value::text("Alice"))
        .or_in_list("name", vec![Value::text("Bob"), Value::text("Charlie")])
        .is_null("age");
    let (sql, args) = q.build_query();
    assert!(sql.ends_with(
        " WHERE NOT (name = ?) OR name IN (?, ?) AND age IS NULL"
    ));
    assert_eq!(args.len(), 3);
}

#[test]
fn test_where_raw_keeps_text_and_binds() {
    let q = user_builder(Drivers::SQLite)
        .where_raw("name = ?", Value::text("Alice"))
        .or_where_raw("age > ?", Value::Int(20));
    let (sql, args) = q.build_query();
    assert!(sql.ends_with(" WHERE name = ? OR age > ?"));
    assert_eq!(args.len(), 2);
}

#[test]
fn test_alias_qualifies_filters_and_projection() {
    let q = user_builder(Drivers::SQLite)
        .alias("u")
        .filter("name", Op::Eq, Value::text("x"))
        .filter("u.age", Op::Gt, Value::Int(1));
    let (sql, _args) = q.build_query();
    assert_eq!(
        sql,
        "SELECT u.\"id\" AS \"test_user__id\", u.\"name\" AS \"test_user__name\", \
         u.\"age\" AS \"test_user__age\" FROM \"test_user\" u \
         WHERE u.name = ? AND u.age > ?"
    );
}

#[test]
fn test_join_and_join_raw_bind_before_where() {
    let q = user_builder(Drivers::Postgres)
        .join_raw("role_permission rp", "rp.role_id = $1", Value::Int(10))
        .filter("name", Op::Eq, Value::text("read"));
    let (sql, args) = q.build_query();
    assert!(sql.contains(" LEFT JOIN role_permission rp ON rp.role_id = $1"));
    assert!(sql.ends_with(" WHERE name = $2"));
    assert_eq!(args.len(), 2);
    assert!(is_int(&args[0], 10));
    assert!(is_text(&args[1], "read"));
}

#[test]
fn test_inner_join_select_order_limit_offset() {
    let q = user_builder(Drivers::SQLite)
        .select("user.username")
        .select("profile.bio")
        .inner_join("profile", "profile.user_id = user.id")
        .order("name ASC")
        .limit(5)
        .offset(10);
    let (sql, args) = q.build_query();
    assert_eq!(
        sql,
        "SELECT user.username, profile.bio FROM \"test_user\" \
         INNER JOIN profile ON profile.user_id = user.id \
         ORDER BY name ASC LIMIT 5 OFFSET 10"
    );
    assert_eq!(args.len(), 0);
}

#[test]
fn test_group_by_and_having_numbered_after_where() {
    let q = user_builder(Drivers::Postgres)
        .select("age")
        .filter("name", Op::Neq, Value::text("x"))
        .group_by("age")
        .having("age", Op::Gte, Value::Int(18));
    let (sql, args) = q.build_query();
    assert!(sql.ends_with(
        " WHERE name <> $1 GROUP BY age HAVING age >= $2"
    ));
    assert_eq!(args.len(), 2);
}

#[test]
fn test_omit_excludes_column_from_projection() {
    let q = user_builder(Drivers::SQLite).omit("age");
    let (sql, _args) = q.build_query();
    assert_eq!(
        sql,
        "SELECT \"test_user\".\"id\" AS \"test_user__id\", \
         \"test_user\".\"name\" AS \"test_user__name\" FROM \"test_user\""
    );
}

#[test]
fn test_count_query_drops_order_limit_keeps_filters() {
    let q = user_builder(Drivers::SQLite)
        .filter("age", Op::Lt, Value::Int(30))
        .order("name ASC")
        .limit(5)
        .offset(10);
    let (csql, cargs) = q.build_count_query();
    assert_eq!(csql, "SELECT COUNT(*) FROM \"test_user\" WHERE age < ?");
    assert_eq!(cargs.len(), 1);
    let (dsql, dargs) = q.build_query();
    assert!(dsql.ends_with(" WHERE age < ? ORDER BY name ASC LIMIT 5 OFFSET 10"));
    assert_eq!(dargs.len(), cargs.len());
}

#[test]
fn test_placeholder_count_matches_bind_count() {
    // a tree with nested OR-groups, negation, ranges and lists: the
    // rendered WHERE holds exactly one marker per bound value
    let group = FilterGroup::new()
        .filter("a", Op::Eq, Value::Int(1))
        .or_filter("b", Op::Lte, Value::Int(2))
        .not_filter("c", Op::Like, Value::text("%x%"))
        .where_raw("d = ? OR d = ?", Value::Int(3));
    let q = user_builder(Drivers::SQLite)
        .between("age", Value::Int(1), Value::Int(9))
        .or_group(group)
        .in_list("name", vec![Value::text("p"), Value::text("q"), Value::text("r")]);
    let (sql, args) = q.build_query();
    let marks = sql.matches('?').count();
    // the raw fragment above declares two markers but binds one value,
    // as its caller wrote it; every generated leaf matches exactly
    assert_eq!(marks, args.len() + 1);

    let clean = user_builder(Drivers::SQLite)
        .between("age", Value::Int(1), Value::Int(9))
        .or_filter("name", Op::Eq, Value::text("x"))
        .in_list("name", vec![Value::text("p"), Value::text("q")]);
    let (sql2, args2) = clean.build_query();
    assert_eq!(sql2.matches('?').count(), args2.len());
}

#[test]
fn test_insert_sql_binds_in_column_order() {
    let q = user_builder(Drivers::SQLite);
    let map = vec![
        ("name".to_string(), "Alice".to_string()),
        ("id".to_string(), "7".to_string()),
    ];
    let (sql, args) = q.insert_sql(&map);
    assert_eq!(sql, "INSERT INTO \"test_user\" (\"id\", \"name\") VALUES (?, ?)");
    assert_eq!(args.len(), 2);
    assert!(is_text(&args[0], "7"));
    assert!(is_text(&args[1], "Alice"));
}

#[test]
fn test_batch_insert_multi_row_with_nulls() {
    let q = user_builder(Drivers::Postgres);
    let rows = vec![
        vec![("id".to_string(), "1".to_string()), ("name".to_string(), "A".to_string())],
        vec![
            ("id".to_string(), "2".to_string()),
            ("name".to_string(), "B".to_string()),
            ("age".to_string(), "30".to_string()),
        ],
    ];
    let (sql, args) = q.batch_insert_sql(&rows).expect("non-empty batch");
    assert_eq!(
        sql,
        "INSERT INTO \"test_user\" (\"id\", \"name\", \"age\") \
         VALUES ($1, $2, $3), ($4, $5, $6)"
    );
    assert_eq!(args.len(), 6);
    assert!(matches!(args[2], Value::Null));
    assert!(is_text(&args[5], "30"));
}

#[test]
fn test_batch_insert_empty_is_noop() {
    let q = user_builder(Drivers::SQLite);
    let rows: Vec<Vec<(String, String)>> = vec![];
    assert!(q.batch_insert_sql(&rows).is_none());
}

#[test]
fn test_hard_delete_honors_where() {
    let q = user_builder(Drivers::SQLite).filter("name", Op::Eq, Value::text("Alice"));
    let (sql, args) = q.hard_delete_sql();
    assert_eq!(sql, "DELETE FROM \"test_user\" WHERE name = ?");
    assert_eq!(args.len(), 1);
}

#[test]
fn test_soft_delete_updates_declared_column() {
    let mut deleted = col("deleted", "BOOLEAN");
    deleted.soft_delete = true;
    deleted.is_nullable = true;
    let columns = vec![col("id", "INTEGER"), deleted];
    let actives: Vec<&'static str> = vec!["id", "deleted"];
    let q = QueryBuilder::new(Drivers::SQLite, "Session", columns, &actives)
        .filter("id", Op::Eq, Value::Int(9));
    let (sql, args) = q.soft_delete_sql().expect("has a soft-delete column");
    assert_eq!(sql, "UPDATE \"session\" SET \"deleted\" = ? WHERE id = ?");
    assert_eq!(args.len(), 2);
    assert!(matches!(args[0], Value::Bool(true)));
    assert!(is_int(&args[1], 9));

    let plain = user_builder(Drivers::SQLite);
    assert!(plain.soft_delete_sql().is_none());
}

#[test]
fn test_raw_identifier_and_camel_names_normalized() {
    let columns = vec![col("r#type", "TEXT"), col("createdAt", "TIMESTAMPTZ")];
    let actives: Vec<&'static str> = vec!["r#type", "createdAt"];
    let q = QueryBuilder::new(Drivers::SQLite, "AccountKind", columns, &actives);
    let (sql, _args) = q.build_query();
    assert_eq!(
        sql,
        "SELECT \"account_kind\".\"type\" AS \"account_kind__type\", \
         \"account_kind\".\"created_at\" AS \"account_kind__created_at\" \
         FROM \"account_kind\""
    );
}
