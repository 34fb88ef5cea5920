use bottle_orm::builder::QueryBuilder;
use bottle_orm::decode::DbRow;
use bottle_orm::dialect::{interpret_table_exists, table_columns_sql, table_exists_sql, Drivers};
use bottle_orm::filter::Op;
use bottle_orm::migrate::Migrator;
use bottle_orm::model::ColumnInfo;
use bottle_orm::pagination::{compute_total_pages, Pagination};
use bottle_orm::sync::{create_table_plan, sync_table_plan, DdlStep};
use bottle_orm::value::Value;

use sqlx::any::{AnyPoolOptions, AnyRow};
use sqlx::{AnyPool, Column, Row};

fn col(name: &'static str, sql_type: &'static str) -> ColumnInfo {
    ColumnInfo {
        name,
        sql_type,
        is_primary_key: false,
        is_nullable: false,
        create_time: false,
        update_time: false,
        unique: false,
        index: false,
        foreign_table: None,
        foreign_key: None,
        omit: false,
        soft_delete: false,
    }
}

fn bind_args<'q>(
    sql: &'q str,
    args: &Vec<Value>,
) -> sqlx::query::Query<'q, sqlx::Any, sqlx::any::AnyArguments<'q>> {
    let mut q = sqlx::query(sql);
    for a in args {
        q = match a {
            Value::Null => q.bind(Option::<String>::None),
            Value::Int(i) => q.bind(*i),
            Value::Bool(b) => q.bind(*b),
            Value::Text(s) => q.bind(s.clone()),
        };
    }
    q
}

async fn exec(pool: &AnyPool, sql: &str, args: &Vec<Value>) -> u64 {
    bind_args(sql, args)
        .execute(pool)
        .await
        .unwrap_or_else(|e| panic!("execute failed for `{}`: {}", sql, e))
        .rows_affected()
}

async fn fetch_all(pool: &AnyPool, sql: &str, args: &Vec<Value>) -> Vec<DbRow> {
    let rows = bind_args(sql, args)
        .fetch_all(pool)
        .await
        .unwrap_or_else(|e| panic!("fetch failed for `{}`: {}", sql, e));
    rows.iter().map(any_row_to_db_row).collect()
}

fn any_row_to_db_row(row: &AnyRow) -> DbRow {
    let mut out = DbRow::new();
    for (i, c) in row.columns().iter().enumerate() {
        let value = if let Ok(v) = row.try_get::<Option<i64>, _>(i) {
            match v {
                Some(x) => Value::Int(x),
                None => Value::Null,
            }
        } else if let Ok(v) = row.try_get::<Option<String>, _>(i) {
            match v {
                Some(x) => Value::Text(x),
                None => Value::Null,
            }
        } else {
            Value::Null
        };
        out.push_field(c.name(), value);
    }
    out
}

async fn connect() -> AnyPool {
    sqlx::any::install_default_drivers();
    AnyPoolOptions::new()
        .max_connections(1)
        .connect("sqlite::memory:")
        .await
        .unwrap()
}

fn user_contract() -> Vec<ColumnInfo> {
    let mut id = col("id", "INTEGER");
    id.is_primary_key = true;
    let mut username = col("username", "TEXT");
    username.unique = true;
    vec![id, username, col("age", "INTEGER")]
}

fn user_builder() -> QueryBuilder {
    let actives: Vec<&'static str> = vec!["id", "username", "age"];
    QueryBuilder::new(Drivers::SQLite, "ScenarioUser", user_contract(), &actives)
}

fn user_map(id: i64, username: &str, age: i64) -> Vec<(String, String)> {
    vec![
        ("id".to_string(), id.to_string()),
        ("username".to_string(), username.to_string()),
        ("age".to_string(), age.to_string()),
    ]
}

async fn count_of(pool: &AnyPool, q: &QueryBuilder) -> i64 {
    let (sql, args) = q.build_count_query();
    let rows = fetch_all(pool, &sql, &args).await;
    match rows[0].fields[0].1 {
        Value::Int(c) => c,
        _ => panic!("count did not decode as an integer"),
    }
}

#[test]
fn test_scenario_unique_column_count_and_first() {
    let rt = tokio::runtime::Runtime::new().unwrap();
    rt.block_on(async {
        let pool = connect().await;
        for stmt in create_table_plan("ScenarioUser", &user_contract()) {
            exec(&pool, &stmt, &vec![]).await;
        }
        // inserting a map whose serialized values carry integer text: the
        // backend casts them per the declared column types
        for (i, name, age) in [(1, "alice", 25), (2, "bob", 30), (3, "carol", 35)] {
            let (sql, args) = user_builder().insert_sql(&user_map(i, name, age));
            assert_eq!(exec(&pool, &sql, &args).await, 1);
        }
        assert_eq!(count_of(&pool, &user_builder()).await, 3);

        // a filter present in exactly one row returns exactly that row
        let q = user_builder().filter("username", Op::Eq, Value::text("bob"));
        let (sql, args) = q.build_query();
        let rows = fetch_all(&pool, &sql, &args).await;
        assert_eq!(rows.len(), 1);
        let v = rows[0]
            .get_with_fallback(
                &"scenario_user__age".to_string(),
                &"age".to_string(),
            )
            .unwrap();
        assert!(matches!(v, Value::Int(30)));

        // the unique constraint made it into the physical schema
        let (dup_sql, dup_args) = user_builder().insert_sql(&user_map(4, "bob", 1));
        let dup = bind_args(&dup_sql, &dup_args).execute(&pool).await;
        assert!(dup.is_err());

        // an aliased query decodes through the qualified lookup name
        let aliased = user_builder()
            .alias("u")
            .filter("username", Op::Eq, Value::text("alice"));
        let (asql, aargs) = aliased.build_query();
        let arows = fetch_all(&pool, &asql, &aargs).await;
        assert_eq!(arows.len(), 1);
        let av = arows[0]
            .get_with_fallback(
                &"scenario_user__username".to_string(),
                &"username".to_string(),
            )
            .unwrap();
        assert!(matches!(av, Value::Text(s) if s == "alice"));

        // the same lookup succeeds on a bare projection via the fallback
        let bare = user_builder()
            .select("username")
            .filter("username", Op::Eq, Value::text("carol"));
        let (bsql, bargs) = bare.build_query();
        let brows = fetch_all(&pool, &bsql, &bargs).await;
        assert_eq!(brows.len(), 1);
        let bv = brows[0]
            .get_with_fallback(
                &"scenario_user__username".to_string(),
                &"username".to_string(),
            )
            .unwrap();
        assert!(matches!(bv, Value::Text(s) if s == "carol"));
    });
}

#[test]
fn test_scenario_enum_column_round_trip() {
    let rt = tokio::runtime::Runtime::new().unwrap();
    rt.block_on(async {
        let pool = connect().await;
        let mut id = col("id", "INTEGER");
        id.is_primary_key = true;
        let mut optional_role = col("optional_role", "TEXT");
        optional_role.is_nullable = true;
        let contract = vec![id, col("name", "TEXT"), col("role", "TEXT"), optional_role];
        for stmt in create_table_plan("EnumUser", &contract) {
            exec(&pool, &stmt, &vec![]).await;
        }
        exec(
            &pool,
            "INSERT INTO enum_user (id, name, role, optional_role) VALUES (?, ?, ?, ?)",
            &vec![
                Value::Int(1),
                Value::text("Alice"),
                Value::text("admin"),
                Value::text("user"),
            ],
        )
        .await;
        exec(
            &pool,
            "INSERT INTO enum_user (id, name, role, optional_role) VALUES (?, ?, ?, ?)",
            &vec![Value::Int(2), Value::text("Bob"), Value::text("user"), Value::Null],
        )
        .await;

        let variants = vec!["admin".to_string(), "user".to_string(), "guest".to_string()];
        let actives: Vec<&'static str> = vec!["id", "name", "role", "optional_role"];
        let q = QueryBuilder::new(Drivers::SQLite, "EnumUser", contract, &actives)
            .order("id ASC");
        let (sql, args) = q.build_query();
        let rows = fetch_all(&pool, &sql, &args).await;
        assert_eq!(rows.len(), 2);

        let r0 = bottle_orm::decode::decode_required_enum(
            &rows[0],
            &"enum_user__role".to_string(),
            &"role".to_string(),
            &variants,
            "role",
        );
        assert_eq!(r0.unwrap(), 0);
        let o0 = bottle_orm::decode::decode_optional_enum(
            &rows[0],
            &"enum_user__optional_role".to_string(),
            &"optional_role".to_string(),
            &variants,
            "optional_role",
        );
        assert!(matches!(o0, Ok(Some(1))));

        // a stored NULL decodes as the absent value, never as an error
        let o1 = bottle_orm::decode::decode_optional_enum(
            &rows[1],
            &"enum_user__optional_role".to_string(),
            &"optional_role".to_string(),
            &variants,
            "optional_role",
        );
        assert!(matches!(o1, Ok(None)));

        // a stored string outside the variant set names the column
        exec(
            &pool,
            "UPDATE enum_user SET role = ? WHERE id = ?",
            &vec![Value::text("overlord"), Value::Int(2)],
        )
        .await;
        let (sql2, args2) = QueryBuilder::new(
            Drivers::SQLite,
            "EnumUser",
            vec![col("id", "INTEGER"), col("role", "TEXT")],
            &vec!["id", "role"],
        )
        .filter("id", Op::Eq, Value::Int(2))
        .build_query();
        let rows2 = fetch_all(&pool, &sql2, &args2).await;
        let bad = bottle_orm::decode::decode_required_enum(
            &rows2[0],
            &"enum_user__role".to_string(),
            &"role".to_string(),
            &variants,
            "role",
        );
        assert!(matches!(
            bad,
            Err(bottle_orm::error::OrmError::DecodeError(c)) if c == "role"
        ));
    });
}

#[test]
fn test_scenario_two_pass_migration_creates_all_tables() {
    let rt = tokio::runtime::Runtime::new().unwrap();
    rt.block_on(async {
        let pool = connect().await;
        let mut pid = col("id", "INTEGER");
        pid.is_primary_key = true;
        let mut user_ref = col("user_id", "INTEGER");
        user_ref.foreign_table = Some("ScenarioUser");
        user_ref.foreign_key = Some("id");
        let profile = vec![pid, user_ref, col("bio", "TEXT")];

        // the referencing table registers before the referenced one; the
        // creation pass still creates both before any foreign-key work
        let m = Migrator::new(Drivers::SQLite)
            .register("ScenarioProfile", profile)
            .register("ScenarioUser", user_contract());
        let (creates, fks) = m.plan();
        for stmt in &creates {
            exec(&pool, stmt, &vec![]).await;
        }
        for stmt in &fks {
            // best-effort pass: attachment failures are swallowed
            let _ = bind_args(stmt, &vec![]).execute(&pool).await;
        }
        for table in ["scenario_profile", "scenario_user"] {
            let (sql, args) = table_exists_sql(Drivers::SQLite, table);
            let rows = fetch_all(&pool, &sql, &args).await;
            let exists = interpret_table_exists(Drivers::SQLite, &rows[0].fields[0].1).unwrap();
            assert!(exists, "table {} should exist", table);
        }
    });
}

#[test]
fn test_scenario_sync_table_diffing_against_live_catalog() {
    let rt = tokio::runtime::Runtime::new().unwrap();
    rt.block_on(async {
        let pool = connect().await;
        let mut id = col("id", "INTEGER");
        id.is_primary_key = true;
        let v1 = vec![id, col("name", "TEXT")];
        for stmt in create_table_plan("UsersEvolution", &v1) {
            exec(&pool, &stmt, &vec![]).await;
        }
        exec(
            &pool,
            "INSERT INTO users_evolution (id, name) VALUES (?, ?)",
            &vec![Value::Int(1), Value::text("Alice")],
        )
        .await;

        let mut v2 = v1.clone();
        v2.push(col("age", "INTEGER"));
        let mut email = col("email", "TEXT");
        email.index = true;
        v2.push(email);

        let (cols_sql, cols_args) = table_columns_sql(Drivers::SQLite, "users_evolution");
        let existing: Vec<String> = fetch_all(&pool, &cols_sql, &cols_args)
            .await
            .iter()
            .map(|r| match r.get(&"name".to_string()).unwrap() {
                Value::Text(s) => s,
                v => panic!("unexpected catalog value {:?}", v),
            })
            .collect();
        assert!(existing.contains(&"id".to_string()));
        assert!(!existing.contains(&"age".to_string()));

        let plan = sync_table_plan(Drivers::SQLite, "UsersEvolution", &v2, &existing, &vec![]);
        assert_eq!(plan.len(), 3);
        for step in &plan {
            let sql = match step {
                DdlStep::AddColumn { sql, .. } => sql,
                DdlStep::CreateUniqueIndex { sql, .. } => sql,
                DdlStep::CreateIndex { sql, .. } => sql,
            };
            exec(&pool, sql, &vec![]).await;
        }

        // the widened shape accepts full rows, and old rows kept their data
        exec(
            &pool,
            "INSERT INTO users_evolution (id, name, age, email) VALUES (?, ?, ?, ?)",
            &vec![
                Value::Int(2),
                Value::text("Bob"),
                Value::Int(30),
                Value::text("bob@example.com"),
            ],
        )
        .await;
        let rows = fetch_all(
            &pool,
            "SELECT name, age FROM users_evolution ORDER BY id",
            &vec![],
        )
        .await;
        assert_eq!(rows.len(), 2);
        assert!(matches!(rows[0].fields[1].1, Value::Int(0)));
        assert!(matches!(rows[1].fields[1].1, Value::Int(30)));
    });
}

#[test]
fn test_scenario_batch_insert_and_pagination() {
    let rt = tokio::runtime::Runtime::new().unwrap();
    rt.block_on(async {
        let pool = connect().await;
        for stmt in create_table_plan("ScenarioUser", &user_contract()) {
            exec(&pool, &stmt, &vec![]).await;
        }
        // an empty batch produces no statement, so nothing is executed
        let empty: Vec<Vec<(String, String)>> = vec![];
        assert!(user_builder().batch_insert_sql(&empty).is_none());
        assert_eq!(count_of(&pool, &user_builder()).await, 0);

        let rows: Vec<Vec<(String, String)>> = (1..=13)
            .map(|i| user_map(i, &format!("user{:02}", i), 20 + i))
            .collect();
        let (sql, args) = user_builder().batch_insert_sql(&rows).unwrap();
        exec(&pool, &sql, &args).await;

        let total = count_of(&pool, &user_builder()).await;
        assert_eq!(total, 13);

        // walking every page gathers every row exactly once
        let limit: usize = 5;
        let pages = compute_total_pages(total, limit);
        assert_eq!(pages, 3);
        let mut fetched = 0;
        for page in 0..pages {
            let p = Pagination::new(page as usize, limit);
            let (csql, cargs, dsql, dargs) =
                p.queries(user_builder().order("username ASC"));
            let crows = fetch_all(&pool, &csql, &cargs).await;
            assert!(matches!(crows[0].fields[0].1, Value::Int(13)));
            let drows = fetch_all(&pool, &dsql, &dargs).await;
            fetched += drows.len();
        }
        assert_eq!(fetched as i64, total);
    });
}
