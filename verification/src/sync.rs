//! The schema synchronizer: turning a table contract into `CREATE TABLE`
//! and `CREATE INDEX` text, and diffing a contract against introspected
//! catalog state into an additive plan of `ALTER TABLE ADD COLUMN` and
//! index-creation steps. Plans are data; executing them against a backend
//! is the embedding application's task.

use vstd::prelude::*;
use crate::dialect::Drivers;
use crate::model::ColumnInfo;
use crate::text::{db_name_of, join_texts};

verus! {

/// The deterministic name of the plain index on `col` of `table`.
pub open spec fn spec_idx_name(table: Seq<char>, col: Seq<char>) -> Seq<char> {
    "idx_"@ + table + "_"@ + col
}

/// The deterministic name of the unique index on `col` of `table`.
pub open spec fn spec_unique_name(table: Seq<char>, col: Seq<char>) -> Seq<char> {
    "unique_"@ + table + "_"@ + col
}

/// One rendered column definition of a CREATE TABLE statement.
pub open spec fn spec_col_def(c: ColumnInfo) -> Seq<char> {
    "\""@ + db_name_of(c.name@) + "\" "@ + c.sql_type@ + (if c.is_primary_key {
        " PRIMARY KEY"@
    } else if !c.is_nullable {
        " NOT NULL"@
    } else {
        Seq::<char>::empty()
    }) + (if c.unique && !c.is_primary_key {
        " UNIQUE"@
    } else {
        Seq::<char>::empty()
    })
}

/// The rendered column definitions, in declaration order.
pub open spec fn spec_col_defs(cols: Seq<ColumnInfo>) -> Seq<Seq<char>>
    decreases cols.len(),
{
    if cols.len() == 0 {
        Seq::empty()
    } else {
        seq![spec_col_def(cols[0])] + spec_col_defs(cols.drop_first())
    }
}

/// The CREATE TABLE statement of a contract.
pub open spec fn spec_create_table_sql(table: Seq<char>, cols: Seq<ColumnInfo>) -> Seq<char> {
    "CREATE TABLE IF NOT EXISTS \""@ + table + "\" ("@ + join_texts(spec_col_defs(cols), ", "@)
        + ")"@
}

/// The CREATE INDEX statement emitted at table creation.
pub open spec fn spec_create_index_sql(table: Seq<char>, col: Seq<char>) -> Seq<char> {
    "CREATE INDEX IF NOT EXISTS \""@ + spec_idx_name(table, col) + "\" ON \""@ + table
        + "\" (\""@ + col + "\")"@
}

/// The index statements of table creation: one per indexed column that is
/// neither primary key nor unique.
pub open spec fn spec_creation_indexes(table: Seq<char>, cols: Seq<ColumnInfo>) -> Seq<Seq<char>>
    decreases cols.len(),
{
    if cols.len() == 0 {
        Seq::empty()
    } else {
        let rest = spec_creation_indexes(table, cols.drop_first());
        if cols[0].index && !cols[0].is_primary_key && !cols[0].unique {
            seq![spec_create_index_sql(table, db_name_of(cols[0].name@))] + rest
        } else {
            rest
        }
    }
}

/// The full creation plan: the CREATE TABLE statement, then one CREATE
/// INDEX per indexed non-key, non-unique column.
pub open spec fn spec_create_plan(table: Seq<char>, cols: Seq<ColumnInfo>) -> Seq<Seq<char>> {
    seq![spec_create_table_sql(table, cols)] + spec_creation_indexes(table, cols)
}

/// Appending one more column extends definitions and creation indexes.
proof fn lemma_create_snoc(table: Seq<char>, cols: Seq<ColumnInfo>, x: ColumnInfo)
    ensures
        spec_col_defs(cols.push(x)) == spec_col_defs(cols) + seq![spec_col_def(x)],
        spec_creation_indexes(table, cols.push(x)) == spec_creation_indexes(table, cols) + (if
        x.index && !x.is_primary_key && !x.unique {
            seq![spec_create_index_sql(table, db_name_of(x.name@))]
        } else {
            Seq::<Seq<char>>::empty()
        }),
    decreases cols.len(),
{
    let cx = cols.push(x);
    let deftail = seq![spec_col_def(x)];
    let idxtail = if x.index && !x.is_primary_key && !x.unique {
        seq![spec_create_index_sql(table, db_name_of(x.name@))]
    } else {
        Seq::<Seq<char>>::empty()
    };
    if cols.len() == 0 {
        assert(cx[0] == x);
        assert(cx.drop_first() =~= Seq::<ColumnInfo>::empty());
        assert(spec_col_defs(Seq::<ColumnInfo>::empty()) =~= Seq::<Seq<char>>::empty());
        assert(spec_creation_indexes(table, Seq::<ColumnInfo>::empty()) =~= Seq::<
            Seq<char>,
        >::empty());
        assert(spec_col_defs(cx) =~= deftail);
        assert(spec_col_defs(cols) + deftail =~= deftail);
        assert(spec_creation_indexes(table, cx) =~= idxtail);
        assert(spec_creation_indexes(table, cols) + idxtail =~= idxtail);
    } else {
        assert(cx[0] == cols[0]);
        assert(cx.drop_first() =~= cols.drop_first().push(x));
        lemma_create_snoc(table, cols.drop_first(), x);
        assert(seq![spec_col_def(cols[0])] + (spec_col_defs(cols.drop_first()) + deftail) =~= (
        seq![spec_col_def(cols[0])] + spec_col_defs(cols.drop_first())) + deftail);
        if cols[0].index && !cols[0].is_primary_key && !cols[0].unique {
            assert(seq![spec_create_index_sql(table, db_name_of(cols[0].name@))] + (
            spec_creation_indexes(table, cols.drop_first()) + idxtail) =~= (seq![
                spec_create_index_sql(table, db_name_of(cols[0].name@)),
            ] + spec_creation_indexes(table, cols.drop_first())) + idxtail);
        }
    }
}

/// Pushes a string, extending the modeled list by its view.
pub(crate) fn push_string(items: &mut Vec<String>, s: String)
    ensures
        final(items).deep_view() == old(items).deep_view().push(s@),
        final(items)@.len() == old(items)@.len() + 1,
{
    let ghost pre = items@;
    let ghost v = s@;
    items.push(s);
    proof {
        assert forall|i: int| 0 <= i < items@.len() implies items.deep_view()[i] == old(
            items,
        ).deep_view().push(v)[i] by {
            assert(items.deep_view()[i] == items@[i]@);
            if i < pre.len() {
                assert(items@[i] == pre[i]);
                assert(old(items).deep_view()[i] == pre[i]@);
            }
        }
        assert(items.deep_view() =~= old(items).deep_view().push(v));
    }
}

/// Renders one column definition.
fn render_col_def(c: &ColumnInfo) -> (r: String)
    ensures
        r@ == spec_col_def(*c),
{
    let name = crate::text::db_name(c.name);
    let mut def = String::from_str("\"").concat(name.as_str()).concat("\" ").concat(c.sql_type);
    if c.is_primary_key {
        def = def.concat(" PRIMARY KEY");
    } else if !c.is_nullable {
        def = def.concat(" NOT NULL");
    } else {
        proof {
            assert(def@ + Seq::<char>::empty() =~= def@);
        }
    }
    if c.unique && !c.is_primary_key {
        def = def.concat(" UNIQUE");
    } else {
        proof {
            assert(def@ + Seq::<char>::empty() =~= def@);
        }
    }
    def
}

/// Renders the creation plan of a contract: the CREATE TABLE statement
/// followed by one CREATE INDEX per indexed non-key, non-unique column.
pub fn create_table_plan(table_name: &str, columns: &Vec<ColumnInfo>) -> (r: Vec<String>)
    ensures
        r.deep_view() == spec_create_plan(db_name_of(table_name@), columns@),
{
    let table = crate::text::db_name(table_name);
    let ghost t = table@;
    let mut defs: Vec<String> = Vec::new();
    let mut idxs: Vec<String> = Vec::new();
    let mut i: usize = 0;
    proof {
        assert(columns@.take(0) =~= Seq::<ColumnInfo>::empty());
        assert(defs.deep_view() =~= spec_col_defs(columns@.take(0)));
        assert(idxs.deep_view() =~= spec_creation_indexes(t, columns@.take(0)));
    }
    while i < columns.len()
        invariant
            0 <= i <= columns@.len(),
            t == db_name_of(table_name@),
            table@ == t,
            defs.deep_view() =~= spec_col_defs(columns@.take(i as int)),
            idxs.deep_view() =~= spec_creation_indexes(t, columns@.take(i as int)),
        decreases columns@.len() - i,
    {
        let c = &columns[i];
        let ghost pre_defs = defs.deep_view();
        let ghost pre_idxs = idxs.deep_view();
        let def = render_col_def(c);
        push_string(&mut defs, def);
        if c.index && !c.is_primary_key && !c.unique {
            let cname = crate::text::db_name(c.name);
            let stmt = String::from_str("CREATE INDEX IF NOT EXISTS \"idx_").concat(
                table.as_str(),
            ).concat("_").concat(cname.as_str()).concat("\" ON \"").concat(table.as_str()).concat(
                "\" (\"",
            ).concat(cname.as_str()).concat("\")");
            proof {
                assert("CREATE INDEX IF NOT EXISTS \"idx_"@ =~= "CREATE INDEX IF NOT EXISTS \""@
                    + "idx_"@) by {
                    reveal_strlit("CREATE INDEX IF NOT EXISTS \"idx_");
                    reveal_strlit("CREATE INDEX IF NOT EXISTS \"");
                    reveal_strlit("idx_");
                }
                assert(stmt@ == spec_create_index_sql(t, db_name_of(columns@[i as int].name@)));
            }
            push_string(&mut idxs, stmt);
        }
        proof {
            lemma_create_snoc(t, columns@.take(i as int), columns@[i as int]);
            assert(columns@.take(i as int).push(columns@[i as int]) =~= columns@.take(i + 1));
            if columns@[i as int].index && !columns@[i as int].is_primary_key
                && !columns@[i as int].unique {
                assert(pre_idxs + seq![
                    spec_create_index_sql(t, db_name_of(columns@[i as int].name@)),
                ] =~= pre_idxs.push(
                    spec_create_index_sql(t, db_name_of(columns@[i as int].name@)),
                ));
            } else {
                assert(pre_idxs + Seq::<Seq<char>>::empty() =~= pre_idxs);
            }
            assert(pre_defs + seq![spec_col_def(columns@[i as int])] =~= pre_defs.push(
                spec_col_def(columns@[i as int]),
            ));
        }
        i = i + 1;
    }
    proof {
        assert(columns@.take(columns@.len() as int) =~= columns@);
    }
    let defs_text = crate::text::join_strings(&defs, ", ");
    let create = String::from_str("CREATE TABLE IF NOT EXISTS \"").concat(table.as_str()).concat(
        "\" (",
    ).concat(defs_text.as_str()).concat(")");
    let mut plan: Vec<String> = Vec::new();
    push_string(&mut plan, create);
    proof {
        assert(plan.deep_view() =~= seq![spec_create_table_sql(t, columns@)]);
    }
    let mut k: usize = 0;
    while k < idxs.len()
        invariant
            0 <= k <= idxs@.len(),
            idxs.deep_view() =~= spec_creation_indexes(t, columns@),
            plan.deep_view() =~= seq![spec_create_table_sql(t, columns@)] + idxs.deep_view().take(
                k as int,
            ),
            t == db_name_of(table_name@),
        decreases idxs@.len() - k,
    {
        let ghost pre_plan = plan.deep_view();
        let s = idxs[k].clone();
        proof {
            assert(s@ == idxs.deep_view()[k as int]);
        }
        push_string(&mut plan, s);
        proof {
            assert(idxs.deep_view().take(k as int).push(idxs.deep_view()[k as int]) =~=
                idxs.deep_view().take(k + 1));
            assert(pre_plan.push(idxs.deep_view()[k as int]) =~= seq![
                spec_create_table_sql(t, columns@),
            ] + idxs.deep_view().take(k + 1));
        }
        k = k + 1;
    }
    proof {
        assert(idxs.deep_view().take(idxs@.len() as int) =~= idxs.deep_view());
    }
    plan
}

/// One additive step of a synchronization plan. There is no destructive
/// variant: a plan can only add columns and indexes, never drop them.
#[derive(Debug)]
pub enum DdlStep {
    /// Adds a declared column missing from the catalog.
    AddColumn { column: String, sql: String },
    /// Creates a missing unique index.
    CreateUniqueIndex { name: String, sql: String },
    /// Creates a missing plain index.
    CreateIndex { name: String, sql: String },
}

/// The mathematical model of a [`DdlStep`].
pub enum DdlStepModel {
    AddColumn { column: Seq<char>, sql: Seq<char> },
    CreateUniqueIndex { name: Seq<char>, sql: Seq<char> },
    CreateIndex { name: Seq<char>, sql: Seq<char> },
}

impl View for DdlStep {
    type V = DdlStepModel;

    open spec fn view(&self) -> DdlStepModel {
        match self {
            DdlStep::AddColumn { column, sql } => DdlStepModel::AddColumn {
                column: column@,
                sql: sql@,
            },
            DdlStep::CreateUniqueIndex { name, sql } => DdlStepModel::CreateUniqueIndex {
                name: name@,
                sql: sql@,
            },
            DdlStep::CreateIndex { name, sql } => DdlStepModel::CreateIndex {
                name: name@,
                sql: sql@,
            },
        }
    }
}

impl DeepView for DdlStep {
    type V = DdlStepModel;

    open spec fn deep_view(&self) -> DdlStepModel {
        self.view()
    }
}

/// The default literal appended when adding a non-nullable column to a
/// table that may already hold rows, chosen by SQL type category.
pub open spec fn spec_default_of(ty: Seq<char>) -> Seq<char> {
    if ty == "INTEGER"@ || ty == "INT"@ || ty == "BIGINT"@ {
        "0"@
    } else if ty == "BOOLEAN"@ || ty == "BOOL"@ {
        "FALSE"@
    } else {
        "''"@
    }
}

/// The ALTER statement adding one declared column.
pub open spec fn spec_alter_sql(table: Seq<char>, c: ColumnInfo) -> Seq<char> {
    "ALTER TABLE \""@ + table + "\" ADD COLUMN \""@ + db_name_of(c.name@) + "\" "@ + c.sql_type@
        + (if !c.is_nullable {
        " DEFAULT "@ + spec_default_of(c.sql_type@)
    } else {
        Seq::<char>::empty()
    })
}

/// The CREATE UNIQUE INDEX statement of the diff path; only the
/// SQLite-style dialect takes `IF NOT EXISTS`.
pub open spec fn spec_sync_unique_sql(driver: Drivers, table: Seq<char>, col: Seq<char>) -> Seq<
    char,
> {
    if driver == Drivers::SQLite {
        "CREATE UNIQUE INDEX IF NOT EXISTS \""@ + spec_unique_name(table, col) + "\" ON \""@
            + table + "\" (\""@ + col + "\")"@
    } else {
        "CREATE UNIQUE INDEX \""@ + spec_unique_name(table, col) + "\" ON \""@ + table + "\" (\""@
            + col + "\")"@
    }
}

/// The CREATE INDEX statement of the diff path; only the SQLite-style
/// dialect takes `IF NOT EXISTS`.
pub open spec fn spec_sync_index_sql(driver: Drivers, table: Seq<char>, col: Seq<char>) -> Seq<
    char,
> {
    if driver == Drivers::SQLite {
        "CREATE INDEX IF NOT EXISTS \""@ + spec_idx_name(table, col) + "\" ON \""@ + table
            + "\" (\""@ + col + "\")"@
    } else {
        "CREATE INDEX \""@ + spec_idx_name(table, col) + "\" ON \""@ + table + "\" (\""@ + col
            + "\")"@
    }
}

/// The steps one declared column contributes: its ALTER when the catalog
/// lacks the column, then its missing unique or plain index.
pub open spec fn spec_col_steps(
    driver: Drivers,
    table: Seq<char>,
    c: ColumnInfo,
    ec: Seq<Seq<char>>,
    ei: Seq<Seq<char>>,
) -> Seq<DdlStepModel> {
    let n = db_name_of(c.name@);
    (if !ec.contains(n) {
        seq![DdlStepModel::AddColumn { column: n, sql: spec_alter_sql(table, c) }]
    } else {
        Seq::<DdlStepModel>::empty()
    }) + (if c.unique && !ei.contains(spec_unique_name(table, n)) {
        seq![
            DdlStepModel::CreateUniqueIndex {
                name: spec_unique_name(table, n),
                sql: spec_sync_unique_sql(driver, table, n),
            },
        ]
    } else if c.index && !c.unique && !ei.contains(spec_idx_name(table, n)) {
        seq![
            DdlStepModel::CreateIndex {
                name: spec_idx_name(table, n),
                sql: spec_sync_index_sql(driver, table, n),
            },
        ]
    } else {
        Seq::<DdlStepModel>::empty()
    })
}

/// The whole synchronization plan: the steps of every declared column, in
/// declaration order. The plan never drops anything: columns and indexes
/// present in the catalog but absent from the contract are left alone.
pub open spec fn spec_sync_plan(
    driver: Drivers,
    table: Seq<char>,
    cols: Seq<ColumnInfo>,
    ec: Seq<Seq<char>>,
    ei: Seq<Seq<char>>,
) -> Seq<DdlStepModel>
    decreases cols.len(),
{
    if cols.len() == 0 {
        Seq::empty()
    } else {
        spec_col_steps(driver, table, cols[0], ec, ei) + spec_sync_plan(
            driver,
            table,
            cols.drop_first(),
            ec,
            ei,
        )
    }
}

/// Appending one more column extends the plan on the right.
#[verifier::rlimit(60)]
proof fn lemma_sync_plan_snoc(
    driver: Drivers,
    table: Seq<char>,
    cols: Seq<ColumnInfo>,
    x: ColumnInfo,
    ec: Seq<Seq<char>>,
    ei: Seq<Seq<char>>,
)
    ensures
        spec_sync_plan(driver, table, cols.push(x), ec, ei) == spec_sync_plan(
            driver,
            table,
            cols,
            ec,
            ei,
        ) + spec_col_steps(driver, table, x, ec, ei),
    decreases cols.len(),
{
    let cx = cols.push(x);
    let tail = spec_col_steps(driver, table, x, ec, ei);
    if cols.len() == 0 {
        assert(cx[0] == x);
        assert(cx.drop_first() =~= Seq::<ColumnInfo>::empty());
        assert(spec_sync_plan(driver, table, Seq::<ColumnInfo>::empty(), ec, ei) =~= Seq::<
            DdlStepModel,
        >::empty());
        assert(spec_sync_plan(driver, table, cx, ec, ei) =~= tail);
        assert(spec_sync_plan(driver, table, cols, ec, ei) + tail =~= tail);
    } else {
        assert(cx[0] == cols[0]);
        assert(cx.drop_first() =~= cols.drop_first().push(x));
        lemma_sync_plan_snoc(driver, table, cols.drop_first(), x, ec, ei);
        assert(spec_col_steps(driver, table, cols[0], ec, ei) + (spec_sync_plan(
            driver,
            table,
            cols.drop_first(),
            ec,
            ei,
        ) + tail) =~= (spec_col_steps(driver, table, cols[0], ec, ei) + spec_sync_plan(
            driver,
            table,
            cols.drop_first(),
            ec,
            ei,
        )) + tail);
    }
}

/// Pushes one step, extending the modeled plan by its model.
fn push_step(steps: &mut Vec<DdlStep>, st: DdlStep)
    ensures
        final(steps).deep_view() == old(steps).deep_view().push(st@),
{
    let ghost pre = steps@;
    let ghost v = st@;
    steps.push(st);
    proof {
        assert forall|i: int| 0 <= i < steps@.len() implies steps.deep_view()[i] == old(
            steps,
        ).deep_view().push(v)[i] by {
            assert(steps.deep_view()[i] == steps@[i]@);
            if i < pre.len() {
                assert(steps@[i] == pre[i]);
                assert(old(steps).deep_view()[i] == pre[i]@);
            }
        }
        assert(steps.deep_view() =~= old(steps).deep_view().push(v));
    }
}

/// Diffs the contract against the introspected catalog: for every
/// declared column missing from `existing_cols`, one ALTER with a
/// dialect-appropriate default for non-nullable columns; for every
/// missing deterministic index name, one index creation. Additive only.
pub fn sync_table_plan(
    driver: Drivers,
    table_name: &str,
    columns: &Vec<ColumnInfo>,
    existing_cols: &Vec<String>,
    existing_idx: &Vec<String>,
) -> (r: Vec<DdlStep>)
    ensures
        r.deep_view() == spec_sync_plan(
            driver,
            db_name_of(table_name@),
            columns@,
            existing_cols.deep_view(),
            existing_idx.deep_view(),
        ),
{
    let table = crate::text::db_name(table_name);
    let ghost t = table@;
    let ghost ec = existing_cols.deep_view();
    let ghost ei = existing_idx.deep_view();
    let mut plan: Vec<DdlStep> = Vec::new();
    let mut i: usize = 0;
    proof {
        assert(columns@.take(0) =~= Seq::<ColumnInfo>::empty());
        assert(plan.deep_view() =~= spec_sync_plan(driver, t, columns@.take(0), ec, ei));
    }
    while i < columns.len()
        invariant
            0 <= i <= columns@.len(),
            t == db_name_of(table_name@),
            table@ == t,
            ec == existing_cols.deep_view(),
            ei == existing_idx.deep_view(),
            plan.deep_view() =~= spec_sync_plan(driver, t, columns@.take(i as int), ec, ei),
        decreases columns@.len() - i,
    {
        let c = &columns[i];
        let ghost pre_plan = plan.deep_view();
        let cname = crate::text::db_name(c.name);
        let ghost n = db_name_of(columns@[i as int].name@);
        let ghost add_part: Seq<DdlStepModel> = if !ec.contains(n) {
            seq![
                DdlStepModel::AddColumn {
                    column: n,
                    sql: spec_alter_sql(t, columns@[i as int]),
                },
            ]
        } else {
            Seq::<DdlStepModel>::empty()
        };
        if !crate::text::vec_contains_string(existing_cols, &cname) {
            let mut alter = String::from_str("ALTER TABLE \"").concat(table.as_str()).concat(
                "\" ADD COLUMN \"",
            ).concat(cname.as_str()).concat("\" ").concat(c.sql_type);
            if !c.is_nullable {
                let d: &'static str = if crate::text::str_eq(c.sql_type, "INTEGER")
                    || crate::text::str_eq(c.sql_type, "INT") || crate::text::str_eq(
                    c.sql_type,
                    "BIGINT",
                ) {
                    "0"
                } else if crate::text::str_eq(c.sql_type, "BOOLEAN") || crate::text::str_eq(
                    c.sql_type,
                    "BOOL",
                ) {
                    "FALSE"
                } else {
                    "''"
                };
                alter = alter.concat(" DEFAULT ").concat(d);
            } else {
                proof {
                    assert(alter@ + Seq::<char>::empty() =~= alter@);
                }
            }
            proof {
                assert(alter@ == spec_alter_sql(t, columns@[i as int]));
            }
            push_step(&mut plan, DdlStep::AddColumn { column: cname.clone(), sql: alter });
            proof {
                assert(plan.deep_view() =~= pre_plan + add_part);
            }
        } else {
            proof {
                assert(plan.deep_view() =~= pre_plan + add_part);
            }
        }
        let ghost mid_plan = plan.deep_view();
        let uname = String::from_str("unique_").concat(table.as_str()).concat("_").concat(
            cname.as_str(),
        );
        let iname = String::from_str("idx_").concat(table.as_str()).concat("_").concat(
            cname.as_str(),
        );
        proof {
            assert(uname@ == spec_unique_name(t, n));
            assert(iname@ == spec_idx_name(t, n));
        }
        if c.unique && !crate::text::vec_contains_string(existing_idx, &uname) {
            let sql = if matches!(driver, Drivers::SQLite) {
                String::from_str("CREATE UNIQUE INDEX IF NOT EXISTS \"").concat(
                    uname.as_str(),
                ).concat("\" ON \"").concat(table.as_str()).concat("\" (\"").concat(
                    cname.as_str(),
                ).concat("\")")
            } else {
                String::from_str("CREATE UNIQUE INDEX \"").concat(uname.as_str()).concat(
                    "\" ON \"",
                ).concat(table.as_str()).concat("\" (\"").concat(cname.as_str()).concat("\")")
            };
            proof {
                assert(sql@ == spec_sync_unique_sql(driver, t, n));
            }
            push_step(&mut plan, DdlStep::CreateUniqueIndex { name: uname, sql });
        } else if c.index && !c.unique && !crate::text::vec_contains_string(existing_idx, &iname) {
            let sql = if matches!(driver, Drivers::SQLite) {
                String::from_str("CREATE INDEX IF NOT EXISTS \"").concat(iname.as_str()).concat(
                    "\" ON \"",
                ).concat(table.as_str()).concat("\" (\"").concat(cname.as_str()).concat("\")")
            } else {
                String::from_str("CREATE INDEX \"").concat(iname.as_str()).concat(
                    "\" ON \"",
                ).concat(table.as_str()).concat("\" (\"").concat(cname.as_str()).concat("\")")
            };
            proof {
                assert(sql@ == spec_sync_index_sql(driver, t, n));
            }
            push_step(&mut plan, DdlStep::CreateIndex { name: iname, sql });
        }
        proof {
            assert(plan.deep_view() =~= pre_plan + spec_col_steps(
                driver,
                t,
                columns@[i as int],
                ec,
                ei,
            ));
            lemma_sync_plan_snoc(driver, t, columns@.take(i as int), columns@[i as int], ec, ei);
            assert(columns@.take(i as int).push(columns@[i as int]) =~= columns@.take(i + 1));
        }
        i = i + 1;
    }
    proof {
        assert(columns@.take(columns@.len() as int) =~= columns@);
    }
    plan
}

/// The column names a plan adds, in order.
pub open spec fn plan_added_cols(p: Seq<DdlStepModel>) -> Seq<Seq<char>>
    decreases p.len(),
{
    if p.len() == 0 {
        Seq::empty()
    } else {
        (match p[0] {
            DdlStepModel::AddColumn { column, .. } => seq![column],
            _ => Seq::<Seq<char>>::empty(),
        }) + plan_added_cols(p.drop_first())
    }
}

/// The index names a plan creates, in order.
pub open spec fn plan_added_idx(p: Seq<DdlStepModel>) -> Seq<Seq<char>>
    decreases p.len(),
{
    if p.len() == 0 {
        Seq::empty()
    } else {
        (match p[0] {
            DdlStepModel::CreateUniqueIndex { name, .. } => seq![name],
            DdlStepModel::CreateIndex { name, .. } => seq![name],
            _ => Seq::<Seq<char>>::empty(),
        }) + plan_added_idx(p.drop_first())
    }
}

/// Additions distribute over plan concatenation.
proof fn lemma_plan_added_concat(a: Seq<DdlStepModel>, b: Seq<DdlStepModel>)
    ensures
        plan_added_cols(a + b) == plan_added_cols(a) + plan_added_cols(b),
        plan_added_idx(a + b) == plan_added_idx(a) + plan_added_idx(b),
    decreases a.len(),
{
    if a.len() == 0 {
        assert(a + b =~= b);
        assert(plan_added_cols(a) =~= Seq::<Seq<char>>::empty());
        assert(plan_added_idx(a) =~= Seq::<Seq<char>>::empty());
        assert(plan_added_cols(a) + plan_added_cols(b) =~= plan_added_cols(b));
        assert(plan_added_idx(a) + plan_added_idx(b) =~= plan_added_idx(b));
    } else {
        assert((a + b)[0] == a[0]);
        assert((a + b).drop_first() =~= a.drop_first() + b);
        lemma_plan_added_concat(a.drop_first(), b);
        let hc = match a[0] {
            DdlStepModel::AddColumn { column, .. } => seq![column],
            _ => Seq::<Seq<char>>::empty(),
        };
        let hi = match a[0] {
            DdlStepModel::CreateUniqueIndex { name, .. } => seq![name],
            DdlStepModel::CreateIndex { name, .. } => seq![name],
            _ => Seq::<Seq<char>>::empty(),
        };
        assert(hc + (plan_added_cols(a.drop_first()) + plan_added_cols(b)) =~= (hc
            + plan_added_cols(a.drop_first())) + plan_added_cols(b));
        assert(hi + (plan_added_idx(a.drop_first()) + plan_added_idx(b)) =~= (hi + plan_added_idx(
            a.drop_first(),
        )) + plan_added_idx(b));
    }
}

/// Membership distributes over concatenation of name lists.
proof fn lemma_contains_concat(a: Seq<Seq<char>>, b: Seq<Seq<char>>, x: Seq<char>)
    ensures
        (a + b).contains(x) <==> (a.contains(x) || b.contains(x)),
{
    if a.contains(x) {
        let i = choose|i: int| 0 <= i < a.len() && a[i] == x;
        assert((a + b)[i] == x);
    }
    if b.contains(x) {
        let i = choose|i: int| 0 <= i < b.len() && b[i] == x;
        assert((a + b)[a.len() + i] == x);
    }
    if (a + b).contains(x) {
        let i = choose|i: int| 0 <= i < (a + b).len() && (a + b)[i] == x;
        if i < a.len() {
            assert(a[i] == x);
        } else {
            assert(b[i - a.len()] == x);
        }
    }
}

/// What the catalog must hold of one declared column so that
/// synchronization has nothing to do for it.
pub open spec fn col_satisfied(
    table: Seq<char>,
    c: ColumnInfo,
    ec: Seq<Seq<char>>,
    ei: Seq<Seq<char>>,
) -> bool {
    let n = db_name_of(c.name@);
    &&& ec.contains(n)
    &&& c.unique ==> ei.contains(spec_unique_name(table, n))
    &&& c.index && !c.unique ==> ei.contains(spec_idx_name(table, n))
}

/// The catalog already holds everything the contract declares.
pub open spec fn satisfied(
    table: Seq<char>,
    cols: Seq<ColumnInfo>,
    ec: Seq<Seq<char>>,
    ei: Seq<Seq<char>>,
) -> bool {
    forall|i: int| 0 <= i < cols.len() ==> col_satisfied(table, #[trigger] cols[i], ec, ei)
}

/// A satisfied column contributes no step.
proof fn lemma_col_steps_empty(
    driver: Drivers,
    table: Seq<char>,
    c: ColumnInfo,
    ec: Seq<Seq<char>>,
    ei: Seq<Seq<char>>,
)
    requires
        col_satisfied(table, c, ec, ei),
    ensures
        spec_col_steps(driver, table, c, ec, ei).len() == 0,
{
    assert(spec_col_steps(driver, table, c, ec, ei) =~= Seq::<DdlStepModel>::empty());
}

/// Synchronization against a catalog that already holds everything the
/// contract declares plans nothing.
pub proof fn lemma_sync_idempotent(
    driver: Drivers,
    table: Seq<char>,
    cols: Seq<ColumnInfo>,
    ec: Seq<Seq<char>>,
    ei: Seq<Seq<char>>,
)
    requires
        satisfied(table, cols, ec, ei),
    ensures
        spec_sync_plan(driver, table, cols, ec, ei).len() == 0,
    decreases cols.len(),
{
    if cols.len() > 0 {
        assert(col_satisfied(table, cols[0], ec, ei));
        lemma_col_steps_empty(driver, table, cols[0], ec, ei);
        assert forall|j: int| 0 <= j < cols.drop_first().len() implies col_satisfied(
            table,
            #[trigger] cols.drop_first()[j],
            ec,
            ei,
        ) by {
            assert(cols.drop_first()[j] == cols[j + 1]);
        }
        lemma_sync_idempotent(driver, table, cols.drop_first(), ec, ei);
    }
}

/// What one column's steps add.
proof fn lemma_col_steps_added(
    driver: Drivers,
    table: Seq<char>,
    c: ColumnInfo,
    ec: Seq<Seq<char>>,
    ei: Seq<Seq<char>>,
)
    ensures
        plan_added_cols(spec_col_steps(driver, table, c, ec, ei)) == (if !ec.contains(
            db_name_of(c.name@),
        ) {
            seq![db_name_of(c.name@)]
        } else {
            Seq::<Seq<char>>::empty()
        }),
        plan_added_idx(spec_col_steps(driver, table, c, ec, ei)) == (if c.unique && !ei.contains(
            spec_unique_name(table, db_name_of(c.name@)),
        ) {
            seq![spec_unique_name(table, db_name_of(c.name@))]
        } else if c.index && !c.unique && !ei.contains(
            spec_idx_name(table, db_name_of(c.name@)),
        ) {
            seq![spec_idx_name(table, db_name_of(c.name@))]
        } else {
            Seq::<Seq<char>>::empty()
        }),
{
    let n = db_name_of(c.name@);
    let a: Seq<DdlStepModel> = if !ec.contains(n) {
        seq![DdlStepModel::AddColumn { column: n, sql: spec_alter_sql(table, c) }]
    } else {
        Seq::<DdlStepModel>::empty()
    };
    let b: Seq<DdlStepModel> = if c.unique && !ei.contains(spec_unique_name(table, n)) {
        seq![
            DdlStepModel::CreateUniqueIndex {
                name: spec_unique_name(table, n),
                sql: spec_sync_unique_sql(driver, table, n),
            },
        ]
    } else if c.index && !c.unique && !ei.contains(spec_idx_name(table, n)) {
        seq![
            DdlStepModel::CreateIndex {
                name: spec_idx_name(table, n),
                sql: spec_sync_index_sql(driver, table, n),
            },
        ]
    } else {
        Seq::<DdlStepModel>::empty()
    };
    lemma_plan_added_concat(a, b);
    assert(plan_added_cols(Seq::<DdlStepModel>::empty()) =~= Seq::<Seq<char>>::empty());
    assert(plan_added_idx(Seq::<DdlStepModel>::empty()) =~= Seq::<Seq<char>>::empty());
    if a.len() > 0 {
        assert(a[0] == DdlStepModel::AddColumn { column: n, sql: spec_alter_sql(table, c) });
        assert(a.drop_first() =~= Seq::<DdlStepModel>::empty());
        assert(plan_added_cols(a) =~= seq![n]);
        assert(plan_added_idx(a) =~= Seq::<Seq<char>>::empty());
    } else {
        assert(plan_added_cols(a) =~= Seq::<Seq<char>>::empty());
        assert(plan_added_idx(a) =~= Seq::<Seq<char>>::empty());
    }
    if b.len() > 0 {
        assert(b.drop_first() =~= Seq::<DdlStepModel>::empty());
        assert(plan_added_cols(b) =~= Seq::<Seq<char>>::empty());
        match b[0] {
            DdlStepModel::CreateUniqueIndex { name, .. } => {
                assert(plan_added_idx(b) =~= seq![name]);
            },
            DdlStepModel::CreateIndex { name, .. } => {
                assert(plan_added_idx(b) =~= seq![name]);
            },
            _ => {
                assert(false);
            },
        }
    } else {
        assert(plan_added_cols(b) =~= Seq::<Seq<char>>::empty());
        assert(plan_added_idx(b) =~= Seq::<Seq<char>>::empty());
    }
    assert(plan_added_cols(a) + plan_added_cols(b) =~= plan_added_cols(a + b));
    assert(plan_added_cols(spec_col_steps(driver, table, c, ec, ei)) =~= plan_added_cols(a)
        + plan_added_cols(b));
    assert(plan_added_idx(spec_col_steps(driver, table, c, ec, ei)) =~= plan_added_idx(a)
        + plan_added_idx(b));
}

/// A column is satisfied by any catalog extended with its own steps'
/// additions, and satisfaction is preserved under further extension.
proof fn lemma_satisfied_mono(
    table: Seq<char>,
    cols: Seq<ColumnInfo>,
    ec1: Seq<Seq<char>>,
    ei1: Seq<Seq<char>>,
    ec2: Seq<Seq<char>>,
    ei2: Seq<Seq<char>>,
)
    requires
        satisfied(table, cols, ec1, ei1),
        forall|x: Seq<char>| ec1.contains(x) ==> ec2.contains(x),
        forall|x: Seq<char>| ei1.contains(x) ==> ei2.contains(x),
    ensures
        satisfied(table, cols, ec2, ei2),
{
    assert forall|i: int| 0 <= i < cols.len() implies col_satisfied(
        table,
        #[trigger] cols[i],
        ec2,
        ei2,
    ) by {
        assert(col_satisfied(table, cols[i], ec1, ei1));
    }
}

/// Applying a synchronization plan leaves the catalog holding everything
/// the contract declares: one pass completes the schema.
pub proof fn lemma_sync_additions_suffice(
    driver: Drivers,
    table: Seq<char>,
    cols: Seq<ColumnInfo>,
    ec: Seq<Seq<char>>,
    ei: Seq<Seq<char>>,
)
    ensures
        satisfied(
            table,
            cols,
            ec + plan_added_cols(spec_sync_plan(driver, table, cols, ec, ei)),
            ei + plan_added_idx(spec_sync_plan(driver, table, cols, ec, ei)),
        ),
    decreases cols.len(),
{
    let plan = spec_sync_plan(driver, table, cols, ec, ei);
    if cols.len() == 0 {
    } else {
        let c0 = cols[0];
        let steps0 = spec_col_steps(driver, table, c0, ec, ei);
        let plan1 = spec_sync_plan(driver, table, cols.drop_first(), ec, ei);
        assert(plan == steps0 + plan1);
        lemma_plan_added_concat(steps0, plan1);
        lemma_col_steps_added(driver, table, c0, ec, ei);
        lemma_sync_additions_suffice(driver, table, cols.drop_first(), ec, ei);
        // every name the tail plan adds is added by the whole plan
        assert forall|x: Seq<char>| (ec + plan_added_cols(plan1)).contains(x) implies (ec
            + plan_added_cols(plan)).contains(x) by {
            lemma_contains_concat(ec, plan_added_cols(plan1), x);
            lemma_contains_concat(plan_added_cols(steps0), plan_added_cols(plan1), x);
            lemma_contains_concat(ec, plan_added_cols(plan), x);
        }
        assert forall|x: Seq<char>| (ei + plan_added_idx(plan1)).contains(x) implies (ei
            + plan_added_idx(plan)).contains(x) by {
            lemma_contains_concat(ei, plan_added_idx(plan1), x);
            lemma_contains_concat(plan_added_idx(steps0), plan_added_idx(plan1), x);
            lemma_contains_concat(ei, plan_added_idx(plan), x);
        }
        lemma_satisfied_mono(
            table,
            cols.drop_first(),
            ec + plan_added_cols(plan1),
            ei + plan_added_idx(plan1),
            ec + plan_added_cols(plan),
            ei + plan_added_idx(plan),
        );
        // the head column is satisfied: either already present, or its
        // step's addition is in the plan's additions
        let n = db_name_of(c0.name@);
        assert(col_satisfied(table, c0, ec + plan_added_cols(plan), ei + plan_added_idx(plan)))
            by {
            lemma_contains_concat(ec, plan_added_cols(plan), n);
            if !ec.contains(n) {
                assert(plan_added_cols(steps0) == seq![n]);
                assert(plan_added_cols(steps0).contains(n)) by {
                    assert(plan_added_cols(steps0)[0] == n);
                }
                lemma_contains_concat(plan_added_cols(steps0), plan_added_cols(plan1), n);
            }
            if c0.unique {
                let un = spec_unique_name(table, n);
                lemma_contains_concat(ei, plan_added_idx(plan), un);
                if !ei.contains(un) {
                    assert(plan_added_idx(steps0) == seq![un]);
                    assert(plan_added_idx(steps0).contains(un)) by {
                        assert(plan_added_idx(steps0)[0] == un);
                    }
                    lemma_contains_concat(plan_added_idx(steps0), plan_added_idx(plan1), un);
                }
            }
            if c0.index && !c0.unique {
                let inm = spec_idx_name(table, n);
                lemma_contains_concat(ei, plan_added_idx(plan), inm);
                if !ei.contains(inm) {
                    assert(plan_added_idx(steps0) == seq![inm]);
                    assert(plan_added_idx(steps0).contains(inm)) by {
                        assert(plan_added_idx(steps0)[0] == inm);
                    }
                    lemma_contains_concat(plan_added_idx(steps0), plan_added_idx(plan1), inm);
                }
            }
        }
        assert forall|i: int| 0 <= i < cols.len() implies col_satisfied(
            table,
            #[trigger] cols[i],
            ec + plan_added_cols(plan),
            ei + plan_added_idx(plan),
        ) by {
            if i > 0 {
                assert(cols.drop_first()[i - 1] == cols[i]);
            }
        }
    }
}

/// Synchronizing twice in succession on an unchanged contract plans
/// nothing the second time: the first plan's additions satisfy the
/// contract, and a satisfied catalog yields an empty plan.
pub proof fn lemma_sync_twice_is_noop(
    driver: Drivers,
    table: Seq<char>,
    cols: Seq<ColumnInfo>,
    ec: Seq<Seq<char>>,
    ei: Seq<Seq<char>>,
)
    ensures
        spec_sync_plan(
            driver,
            table,
            cols,
            ec + plan_added_cols(spec_sync_plan(driver, table, cols, ec, ei)),
            ei + plan_added_idx(spec_sync_plan(driver, table, cols, ec, ei)),
        ).len() == 0,
{
    lemma_sync_additions_suffice(driver, table, cols, ec, ei);
    lemma_sync_idempotent(
        driver,
        table,
        cols,
        ec + plan_added_cols(spec_sync_plan(driver, table, cols, ec, ei)),
        ei + plan_added_idx(spec_sync_plan(driver, table, cols, ec, ei)),
    );
}

/// Synchronization is additive-only: applying a plan extends the catalog
/// and never removes a column or index present in the database, whether
/// or not the contract declares it.
pub proof fn lemma_sync_additive(
    driver: Drivers,
    table: Seq<char>,
    cols: Seq<ColumnInfo>,
    ec: Seq<Seq<char>>,
    ei: Seq<Seq<char>>,
)
    ensures
        forall|x: Seq<char>| ec.contains(x) ==> #[trigger] (ec + plan_added_cols(
            spec_sync_plan(driver, table, cols, ec, ei),
        )).contains(x),
        forall|x: Seq<char>| ei.contains(x) ==> #[trigger] (ei + plan_added_idx(
            spec_sync_plan(driver, table, cols, ec, ei),
        )).contains(x),
{
    let plan = spec_sync_plan(driver, table, cols, ec, ei);
    assert forall|x: Seq<char>| ec.contains(x) implies #[trigger] (ec + plan_added_cols(
        plan,
    )).contains(x) by {
        lemma_contains_concat(ec, plan_added_cols(plan), x);
    }
    assert forall|x: Seq<char>| ei.contains(x) implies #[trigger] (ei + plan_added_idx(
        plan,
    )).contains(x) by {
        lemma_contains_concat(ei, plan_added_idx(plan), x);
    }
}

/// A plan only adds what the catalog lacks: no column the catalog already
/// holds is ever re-added or touched.
pub proof fn lemma_sync_only_missing(
    driver: Drivers,
    table: Seq<char>,
    cols: Seq<ColumnInfo>,
    ec: Seq<Seq<char>>,
    ei: Seq<Seq<char>>,
)
    ensures
        forall|x: Seq<char>|
            #[trigger] plan_added_cols(spec_sync_plan(driver, table, cols, ec, ei)).contains(x)
                ==> !ec.contains(x),
    decreases cols.len(),
{
    let plan = spec_sync_plan(driver, table, cols, ec, ei);
    if cols.len() == 0 {
        assert forall|x: Seq<char>| #[trigger] plan_added_cols(plan).contains(x) implies
            !ec.contains(x) by {
            assert(plan_added_cols(plan).len() == 0);
        }
    } else {
        let c0 = cols[0];
        let steps0 = spec_col_steps(driver, table, c0, ec, ei);
        let plan1 = spec_sync_plan(driver, table, cols.drop_first(), ec, ei);
        assert(plan == steps0 + plan1);
        lemma_plan_added_concat(steps0, plan1);
        lemma_col_steps_added(driver, table, c0, ec, ei);
        lemma_sync_only_missing(driver, table, cols.drop_first(), ec, ei);
        assert forall|x: Seq<char>| #[trigger] plan_added_cols(plan).contains(x) implies
            !ec.contains(x) by {
            lemma_contains_concat(plan_added_cols(steps0), plan_added_cols(plan1), x);
            if plan_added_cols(steps0).contains(x) {
                assert(!ec.contains(db_name_of(c0.name@)));
                assert(x == db_name_of(c0.name@));
            }
        }
    }
}

} // verus!
