//! The migrator: registration queues table contracts without I/O, and the
//! plan runs in two full passes — every table's creation statements first,
//! then every foreign-key attachment — so a foreign key is never attached
//! before the table it references exists, whatever the registration order.

use vstd::prelude::*;
use crate::dialect::Drivers;
use crate::model::ColumnInfo;
use crate::sync::spec_create_plan;
use crate::text::db_name_of;

verus! {

/// One queued table contract.
#[derive(Debug)]
pub struct Registration {
    /// The table name, as declared.
    pub table_name: String,
    /// The contract's column descriptors.
    pub columns: Vec<ColumnInfo>,
}

/// The schema migrator: a queue of table contracts and the dialect the
/// plan is rendered for.
#[derive(Debug)]
pub struct Migrator {
    pub driver: Drivers,
    pub registrations: Vec<Registration>,
}

/// The foreign-key statements of one contract: one ALTER ADD CONSTRAINT
/// per declared foreign-key column.
pub open spec fn spec_fk_stmts(table: Seq<char>, cols: Seq<ColumnInfo>) -> Seq<Seq<char>>
    decreases cols.len(),
{
    if cols.len() == 0 {
        Seq::empty()
    } else {
        let rest = spec_fk_stmts(table, cols.drop_first());
        match (cols[0].foreign_table, cols[0].foreign_key) {
            (Some(ft), Some(fk)) => seq![
                spec_fk_sql(table, db_name_of(ft@), db_name_of(cols[0].name@), db_name_of(fk@)),
            ] + rest,
            _ => rest,
        }
    }
}

/// One foreign-key attachment statement.
pub open spec fn spec_fk_sql(
    table: Seq<char>,
    ftable: Seq<char>,
    col: Seq<char>,
    fcol: Seq<char>,
) -> Seq<char> {
    "ALTER TABLE \""@ + table + "\" ADD CONSTRAINT \"fk_"@ + table + "_"@ + ftable + "_"@ + col
        + "\" FOREIGN KEY (\""@ + col + "\") REFERENCES \""@ + ftable + "\"(\""@ + fcol + "\")"@
}

/// The first pass: every registration's creation plan, in order.
pub open spec fn spec_create_passes(regs: Seq<Registration>) -> Seq<Seq<char>>
    decreases regs.len(),
{
    if regs.len() == 0 {
        Seq::empty()
    } else {
        spec_create_plan(db_name_of(regs[0].table_name@), regs[0].columns@) + spec_create_passes(
            regs.drop_first(),
        )
    }
}

/// The second pass: every registration's foreign-key statements, in
/// order; empty on the SQLite-style dialect, which cannot add constraints
/// after creation.
pub open spec fn spec_fk_passes(driver: Drivers, regs: Seq<Registration>) -> Seq<Seq<char>>
    decreases regs.len(),
{
    if driver == Drivers::SQLite {
        Seq::empty()
    } else if regs.len() == 0 {
        Seq::empty()
    } else {
        spec_fk_stmts(db_name_of(regs[0].table_name@), regs[0].columns@) + spec_fk_passes(
            driver,
            regs.drop_first(),
        )
    }
}

/// The whole run, in execution order: all creation statements of all
/// registrations, then all foreign-key statements.
pub open spec fn spec_migration_stmts(driver: Drivers, regs: Seq<Registration>) -> Seq<Seq<char>> {
    spec_create_passes(regs) + spec_fk_passes(driver, regs)
}

/// The two-pass order: in the run, every creation statement of every
/// registration stands before every foreign-key statement, whatever the
/// registration order, so no foreign key is attached before the table it
/// references exists.
pub proof fn lemma_fk_after_all_creates(driver: Drivers, regs: Seq<Registration>)
    ensures
        forall|i: int|
            0 <= i < spec_create_passes(regs).len() ==> #[trigger] spec_migration_stmts(
                driver,
                regs,
            )[i] == spec_create_passes(regs)[i],
        forall|j: int|
            0 <= j < spec_fk_passes(driver, regs).len() ==> #[trigger] spec_migration_stmts(
                driver,
                regs,
            )[spec_create_passes(regs).len() + j] == spec_fk_passes(driver, regs)[j],
{
}

/// Appending one more registration extends both passes on the right.
proof fn lemma_passes_snoc(driver: Drivers, regs: Seq<Registration>, x: Registration)
    ensures
        spec_create_passes(regs.push(x)) == spec_create_passes(regs) + spec_create_plan(
            db_name_of(x.table_name@),
            x.columns@,
        ),
        spec_fk_passes(driver, regs.push(x)) == spec_fk_passes(driver, regs) + (if driver
            == Drivers::SQLite {
            Seq::<Seq<char>>::empty()
        } else {
            spec_fk_stmts(db_name_of(x.table_name@), x.columns@)
        }),
    decreases regs.len(),
{
    let rx = regs.push(x);
    let ctail = spec_create_plan(db_name_of(x.table_name@), x.columns@);
    let ftail = if driver == Drivers::SQLite {
        Seq::<Seq<char>>::empty()
    } else {
        spec_fk_stmts(db_name_of(x.table_name@), x.columns@)
    };
    if regs.len() == 0 {
        assert(rx[0] == x);
        assert(rx.drop_first() =~= Seq::<Registration>::empty());
        assert(spec_create_passes(Seq::<Registration>::empty()) =~= Seq::<Seq<char>>::empty());
        assert(spec_fk_passes(driver, Seq::<Registration>::empty()) =~= Seq::<Seq<char>>::empty());
        assert(spec_create_passes(rx) =~= ctail);
        assert(spec_create_passes(regs) + ctail =~= ctail);
        assert(spec_fk_passes(driver, rx) =~= ftail);
        assert(spec_fk_passes(driver, regs) + ftail =~= ftail);
    } else {
        assert(rx[0] == regs[0]);
        assert(rx.drop_first() =~= regs.drop_first().push(x));
        lemma_passes_snoc(driver, regs.drop_first(), x);
        assert(spec_create_plan(db_name_of(regs[0].table_name@), regs[0].columns@) + (
        spec_create_passes(regs.drop_first()) + ctail) =~= (spec_create_plan(
            db_name_of(regs[0].table_name@),
            regs[0].columns@,
        ) + spec_create_passes(regs.drop_first())) + ctail);
        if driver != Drivers::SQLite {
            assert(spec_fk_stmts(db_name_of(regs[0].table_name@), regs[0].columns@) + (
            spec_fk_passes(driver, regs.drop_first()) + ftail) =~= (spec_fk_stmts(
                db_name_of(regs[0].table_name@),
                regs[0].columns@,
            ) + spec_fk_passes(driver, regs.drop_first())) + ftail);
        }
    }
}

/// Appending one more column extends a contract's foreign-key statements.
proof fn lemma_fk_stmts_snoc(table: Seq<char>, cols: Seq<ColumnInfo>, x: ColumnInfo)
    ensures
        spec_fk_stmts(table, cols.push(x)) == spec_fk_stmts(table, cols) + (match (
            x.foreign_table,
            x.foreign_key,
        ) {
            (Some(ft), Some(fk)) => seq![
                spec_fk_sql(table, db_name_of(ft@), db_name_of(x.name@), db_name_of(fk@)),
            ],
            _ => Seq::<Seq<char>>::empty(),
        }),
    decreases cols.len(),
{
    let cx = cols.push(x);
    let tail = match (x.foreign_table, x.foreign_key) {
        (Some(ft), Some(fk)) => seq![
            spec_fk_sql(table, db_name_of(ft@), db_name_of(x.name@), db_name_of(fk@)),
        ],
        _ => Seq::<Seq<char>>::empty(),
    };
    if cols.len() == 0 {
        assert(cx[0] == x);
        assert(cx.drop_first() =~= Seq::<ColumnInfo>::empty());
        assert(spec_fk_stmts(table, Seq::<ColumnInfo>::empty()) =~= Seq::<Seq<char>>::empty());
        assert(spec_fk_stmts(table, cx) =~= tail);
        assert(spec_fk_stmts(table, cols) + tail =~= tail);
    } else {
        assert(cx[0] == cols[0]);
        assert(cx.drop_first() =~= cols.drop_first().push(x));
        lemma_fk_stmts_snoc(table, cols.drop_first(), x);
        match (cols[0].foreign_table, cols[0].foreign_key) {
            (Some(ft), Some(fk)) => {
                let h = seq![
                    spec_fk_sql(table, db_name_of(ft@), db_name_of(cols[0].name@), db_name_of(fk@)),
                ];
                assert(h + (spec_fk_stmts(table, cols.drop_first()) + tail) =~= (h + spec_fk_stmts(
                    table,
                    cols.drop_first(),
                )) + tail);
            },
            _ => {},
        }
    }
}

/// Renders one contract's foreign-key statements.
fn fk_stmts(table_name: &str, columns: &Vec<ColumnInfo>) -> (r: Vec<String>)
    ensures
        r.deep_view() == spec_fk_stmts(db_name_of(table_name@), columns@),
{
    let table = crate::text::db_name(table_name);
    let ghost t = table@;
    let mut stmts: Vec<String> = Vec::new();
    let mut i: usize = 0;
    proof {
        assert(columns@.take(0) =~= Seq::<ColumnInfo>::empty());
        assert(stmts.deep_view() =~= spec_fk_stmts(t, columns@.take(0)));
    }
    while i < columns.len()
        invariant
            0 <= i <= columns@.len(),
            t == db_name_of(table_name@),
            table@ == t,
            stmts.deep_view() =~= spec_fk_stmts(t, columns@.take(i as int)),
        decreases columns@.len() - i,
    {
        let c = &columns[i];
        let ghost pre = stmts.deep_view();
        match (c.foreign_table, c.foreign_key) {
            (Some(ft), Some(fk)) => {
                let ftn = crate::text::db_name(ft);
                let cn = crate::text::db_name(c.name);
                let fkn = crate::text::db_name(fk);
                let sql = String::from_str("ALTER TABLE \"").concat(table.as_str()).concat(
                    "\" ADD CONSTRAINT \"fk_",
                ).concat(table.as_str()).concat("_").concat(ftn.as_str()).concat("_").concat(
                    cn.as_str(),
                ).concat("\" FOREIGN KEY (\"").concat(cn.as_str()).concat(
                    "\") REFERENCES \"",
                ).concat(ftn.as_str()).concat("\"(\"").concat(fkn.as_str()).concat("\")");
                proof {
                    assert(sql@ == spec_fk_sql(t, ftn@, cn@, fkn@));
                }
                crate::sync::push_string(&mut stmts, sql);
            },
            _ => {},
        }
        proof {
            lemma_fk_stmts_snoc(t, columns@.take(i as int), columns@[i as int]);
            assert(columns@.take(i as int).push(columns@[i as int]) =~= columns@.take(i + 1));
            match (columns@[i as int].foreign_table, columns@[i as int].foreign_key) {
                (Some(ft), Some(fk)) => {
                    assert(pre + seq![
                        spec_fk_sql(
                            t,
                            db_name_of(ft@),
                            db_name_of(columns@[i as int].name@),
                            db_name_of(fk@),
                        ),
                    ] =~= pre.push(
                        spec_fk_sql(
                            t,
                            db_name_of(ft@),
                            db_name_of(columns@[i as int].name@),
                            db_name_of(fk@),
                        ),
                    ));
                },
                _ => {
                    assert(pre + Seq::<Seq<char>>::empty() =~= pre);
                },
            }
        }
        i = i + 1;
    }
    proof {
        assert(columns@.take(columns@.len() as int) =~= columns@);
    }
    stmts
}

/// Appends copies of all of `src` to `dst`.
fn append_strings(dst: &mut Vec<String>, src: &Vec<String>)
    ensures
        final(dst).deep_view() == old(dst).deep_view() + src.deep_view(),
{
    let ghost base = dst.deep_view();
    let mut i: usize = 0;
    proof {
        assert(src.deep_view().take(0) =~= Seq::<Seq<char>>::empty());
        assert(base + Seq::<Seq<char>>::empty() =~= base);
    }
    while i < src.len()
        invariant
            0 <= i <= src@.len(),
            dst.deep_view() =~= base + src.deep_view().take(i as int),
        decreases src@.len() - i,
    {
        let s = src[i].clone();
        proof {
            assert(s@ == src.deep_view()[i as int]);
        }
        crate::sync::push_string(dst, s);
        proof {
            assert(src.deep_view().take(i as int).push(src.deep_view()[i as int]) =~=
                src.deep_view().take(i + 1));
        }
        i = i + 1;
    }
    proof {
        assert(src.deep_view().take(src@.len() as int) =~= src.deep_view());
    }
}

impl Migrator {
    /// A fresh migrator with an empty registration queue.
    pub fn new(driver: Drivers) -> (r: Self)
        ensures
            r.driver == driver,
            r.registrations@.len() == 0,
    {
        Migrator { driver, registrations: Vec::new() }
    }

    /// Queues one table contract; no I/O happens here.
    pub fn register(self, table_name: &str, columns: Vec<ColumnInfo>) -> (r: Self)
        ensures
            r.driver == self.driver,
            r.registrations@.len() == self.registrations@.len() + 1,
            r.registrations@ == self.registrations@.push(r.registrations@.last()),
            r.registrations@.last().table_name@ == table_name@,
            r.registrations@.last().columns == columns,
    {
        let mut s = self;
        s.registrations.push(
            Registration { table_name: String::from_str(table_name), columns },
        );
        proof {
            assert(s.registrations@ =~= self.registrations@.push(s.registrations@.last()));
        }
        s
    }

    /// Renders the two passes of the run: first every registration's
    /// creation statements, then every registration's foreign-key
    /// statements. Executing the first list before the second guarantees
    /// all referenced tables exist when foreign keys are attached.
    pub fn plan(&self) -> (r: (Vec<String>, Vec<String>))
        ensures
            r.0.deep_view() == spec_create_passes(self.registrations@),
            r.1.deep_view() == spec_fk_passes(self.driver, self.registrations@),
    {
        let mut creates: Vec<String> = Vec::new();
        let mut fks: Vec<String> = Vec::new();
        let mut i: usize = 0;
        proof {
            assert(self.registrations@.take(0) =~= Seq::<Registration>::empty());
            assert(creates.deep_view() =~= spec_create_passes(self.registrations@.take(0)));
            assert(fks.deep_view() =~= spec_fk_passes(
                self.driver,
                self.registrations@.take(0),
            ));
        }
        while i < self.registrations.len()
            invariant
                0 <= i <= self.registrations@.len(),
                creates.deep_view() =~= spec_create_passes(self.registrations@.take(i as int)),
                fks.deep_view() =~= spec_fk_passes(
                    self.driver,
                    self.registrations@.take(i as int),
                ),
            decreases self.registrations@.len() - i,
        {
            let reg = &self.registrations[i];
            let ghost pre_fks = fks.deep_view();
            let cplan = crate::sync::create_table_plan(reg.table_name.as_str(), &reg.columns);
            append_strings(&mut creates, &cplan);
            if !matches!(self.driver, Drivers::SQLite) {
                let fplan = fk_stmts(reg.table_name.as_str(), &reg.columns);
                append_strings(&mut fks, &fplan);
            } else {
                proof {
                    assert(pre_fks + Seq::<Seq<char>>::empty() =~= pre_fks);
                }
            }
            proof {
                lemma_passes_snoc(
                    self.driver,
                    self.registrations@.take(i as int),
                    self.registrations@[i as int],
                );
                assert(self.registrations@.take(i as int).push(self.registrations@[i as int])
                    =~= self.registrations@.take(i + 1));
                if self.driver == Drivers::SQLite {
                    assert(fks.deep_view() =~= spec_fk_passes(
                        self.driver,
                        self.registrations@.take(i + 1),
                    ));
                }
            }
            i = i + 1;
        }
        proof {
            assert(self.registrations@.take(self.registrations@.len() as int) =~=
                self.registrations@);
        }
        (creates, fks)
    }

    /// The whole run as one ordered statement list: the creation pass,
    /// then the foreign-key pass.
    pub fn run_order(&self) -> (r: Vec<String>)
        ensures
            r.deep_view() == spec_migration_stmts(self.driver, self.registrations@),
    {
        let (creates, fks) = self.plan();
        let mut all = creates;
        append_strings(&mut all, &fks);
        all
    }
}

} // verus!