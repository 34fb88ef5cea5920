use bottle_orm::dialect::Drivers;
use bottle_orm::migrate::Migrator;
use bottle_orm::model::ColumnInfo;
use bottle_orm::sync::{create_table_plan, sync_table_plan, DdlStep};

fn col(name: &'static str, sql_type: &'static str) -> ColumnInfo {
    ColumnInfo {
        name,
        sql_type,
        is_primary_key: false,
        is_nullable: false,
        create_time: false,
        update_time: false,
        unique: false,
        index: false,
        foreign_table: None,
        foreign_key: None,
        omit: false,
        soft_delete: false,
    }
}

fn user_v1() -> Vec<ColumnInfo> {
    let mut id = col("id", "UUID");
    id.is_primary_key = true;
    vec![id, col("name", "TEXT")]
}

fn user_v2() -> Vec<ColumnInfo> {
    let mut cols = user_v1();
    cols.push(col("age", "INTEGER"));
    let mut email = col("email", "TEXT");
    email.index = true;
    cols.push(email);
    cols
}

fn step_sql(s: &DdlStep) -> &str {
    match s {
        DdlStep::AddColumn { sql, .. } => sql.as_str(),
        DdlStep::CreateUniqueIndex { sql, .. } => sql.as_str(),
        DdlStep::CreateIndex { sql, .. } => sql.as_str(),
    }
}

#[test]
fn test_create_table_plan_text() {
    let plan = create_table_plan("UsersEvolution", &user_v1());
    assert_eq!(plan.len(), 1);
    assert_eq!(
        plan[0],
        "CREATE TABLE IF NOT EXISTS \"users_evolution\" \
         (\"id\" UUID PRIMARY KEY, \"name\" TEXT NOT NULL)"
    );
}

#[test]
fn test_create_table_plan_constraints_and_indexes() {
    let mut id = col("id", "INTEGER");
    id.is_primary_key = true;
    let mut email = col("email", "VARCHAR(50)");
    email.unique = true;
    let mut city = col("city", "TEXT");
    city.index = true;
    let mut note = col("note", "TEXT");
    note.is_nullable = true;
    let plan = create_table_plan("Customer", &vec![id, email, city, note]);
    assert_eq!(plan.len(), 2);
    assert_eq!(
        plan[0],
        "CREATE TABLE IF NOT EXISTS \"customer\" (\"id\" INTEGER PRIMARY KEY, \
         \"email\" VARCHAR(50) NOT NULL UNIQUE, \"city\" TEXT NOT NULL, \"note\" TEXT)"
    );
    assert_eq!(
        plan[1],
        "CREATE INDEX IF NOT EXISTS \"idx_customer_city\" ON \"customer\" (\"city\")"
    );
}

#[test]
fn test_sync_plan_adds_missing_columns_with_defaults() {
    let existing = vec!["id".to_string(), "name".to_string()];
    let idx: Vec<String> = vec![];
    let plan = sync_table_plan(Drivers::SQLite, "users_evolution", &user_v2(), &existing, &idx);
    assert_eq!(plan.len(), 3);
    assert_eq!(
        step_sql(&plan[0]),
        "ALTER TABLE \"users_evolution\" ADD COLUMN \"age\" INTEGER DEFAULT 0"
    );
    assert_eq!(
        step_sql(&plan[1]),
        "ALTER TABLE \"users_evolution\" ADD COLUMN \"email\" TEXT DEFAULT ''"
    );
    assert_eq!(
        step_sql(&plan[2]),
        "CREATE INDEX IF NOT EXISTS \"idx_users_evolution_email\" \
         ON \"users_evolution\" (\"email\")"
    );
}

#[test]
fn test_sync_plan_index_diffing_only_missing() {
    let existing = vec!["id".to_string(), "name".to_string()];
    let mut cols = user_v1();
    cols[1].index = true;
    let no_idx: Vec<String> = vec![];
    let plan = sync_table_plan(Drivers::SQLite, "users_evolution", &cols, &existing, &no_idx);
    assert_eq!(plan.len(), 1);
    assert!(matches!(
        &plan[0],
        DdlStep::CreateIndex { name, .. } if name == "idx_users_evolution_name"
    ));

    let has_idx = vec!["idx_users_evolution_name".to_string()];
    let plan2 = sync_table_plan(Drivers::SQLite, "users_evolution", &cols, &existing, &has_idx);
    assert_eq!(plan2.len(), 0);
}

#[test]
fn test_sync_plan_unique_index_and_postgres_form() {
    let existing = vec!["id".to_string(), "email".to_string()];
    let mut cols = vec![col("id", "INTEGER"), col("email", "TEXT")];
    cols[1].unique = true;
    let no_idx: Vec<String> = vec![];
    let plan = sync_table_plan(Drivers::Postgres, "account", &cols, &existing, &no_idx);
    assert_eq!(plan.len(), 1);
    assert_eq!(
        step_sql(&plan[0]),
        "CREATE UNIQUE INDEX \"unique_account_email\" ON \"account\" (\"email\")"
    );
}

#[test]
fn test_sync_twice_plans_nothing_the_second_time() {
    let mut existing = vec!["id".to_string(), "name".to_string()];
    let mut idx: Vec<String> = vec![];
    let plan = sync_table_plan(Drivers::SQLite, "users_evolution", &user_v2(), &existing, &idx);
    assert!(plan.len() > 0);
    for step in &plan {
        match step {
            DdlStep::AddColumn { column, .. } => existing.push(column.clone()),
            DdlStep::CreateUniqueIndex { name, .. } => idx.push(name.clone()),
            DdlStep::CreateIndex { name, .. } => idx.push(name.clone()),
        }
    }
    let again = sync_table_plan(Drivers::SQLite, "users_evolution", &user_v2(), &existing, &idx);
    assert_eq!(again.len(), 0);
}

#[test]
fn test_sync_never_touches_catalog_extras() {
    // columns and indexes present in the database but absent from the
    // contract are left alone: no step mentions them
    let existing = vec![
        "id".to_string(),
        "name".to_string(),
        "legacy_blob".to_string(),
    ];
    let idx = vec!["idx_users_evolution_legacy_blob".to_string()];
    let plan = sync_table_plan(Drivers::SQLite, "users_evolution", &user_v2(), &existing, &idx);
    for step in &plan {
        match step {
            DdlStep::AddColumn { column, .. } => {
                assert_ne!(column, "legacy_blob");
                assert!(!existing.contains(column));
            }
            DdlStep::CreateUniqueIndex { name, .. } | DdlStep::CreateIndex { name, .. } => {
                assert!(!idx.contains(name));
            }
        }
    }
}

#[test]
fn test_migrator_two_pass_order() {
    let mut profile_user = col("user_id", "UUID");
    profile_user.foreign_table = Some("User");
    profile_user.foreign_key = Some("id");
    let mut pid = col("id", "UUID");
    pid.is_primary_key = true;
    let profile_cols = vec![pid, profile_user, col("bio", "TEXT")];

    // the referencing table registers first: its foreign key must still
    // come after the referenced table's creation
    let m = Migrator::new(Drivers::Postgres)
        .register("Profile", profile_cols)
        .register("User", user_v1());
    let (creates, fks) = m.plan();
    assert_eq!(creates.len(), 2);
    assert!(creates[0].starts_with("CREATE TABLE IF NOT EXISTS \"profile\""));
    assert!(creates[1].starts_with("CREATE TABLE IF NOT EXISTS \"user\""));
    assert_eq!(fks.len(), 1);
    assert_eq!(
        fks[0],
        "ALTER TABLE \"profile\" ADD CONSTRAINT \"fk_profile_user_user_id\" \
         FOREIGN KEY (\"user_id\") REFERENCES \"user\"(\"id\")"
    );
    let order = m.run_order();
    assert_eq!(order.len(), 3);
    assert!(order[2].starts_with("ALTER TABLE"));
}

#[test]
fn test_migrator_skips_foreign_keys_on_sqlite() {
    let mut fk = col("user_id", "UUID");
    fk.foreign_table = Some("User");
    fk.foreign_key = Some("id");
    let m = Migrator::new(Drivers::SQLite).register("Profile", vec![fk]);
    let (creates, fks) = m.plan();
    assert_eq!(creates.len(), 1);
    assert_eq!(fks.len(), 0);
}
