//! The write-statement terminals of the query builder: INSERT from a
//! value map, one-statement batch INSERT, hard DELETE honoring the WHERE
//! state, and soft delete via an UPDATE of the contract's soft-delete
//! column.

use vstd::prelude::*;
use crate::builder::{entries_args, QueryBuilder};
use crate::dialect::Drivers;
use crate::filter::spec_ph_list;
use crate::model::{spec_map_get, ColumnInfo, ValueMap};
use crate::text::{db_name_of, join_texts};
use crate::value::{Value, ValueModel};

verus! {

/// The quoted database-format names of all declared columns, in order.
pub open spec fn spec_all_col_names(cols: Seq<ColumnInfo>) -> Seq<Seq<char>>
    decreases cols.len(),
{
    if cols.len() == 0 {
        Seq::empty()
    } else {
        seq![seq!['"'] + db_name_of(cols[0].name@) + seq!['"']] + spec_all_col_names(
            cols.drop_first(),
        )
    }
}

/// The quoted names of the declared columns that the value map holds, in
/// declaration order.
pub open spec fn spec_present_names(
    cols: Seq<ColumnInfo>,
    m: Seq<(Seq<char>, Seq<char>)>,
) -> Seq<Seq<char>>
    decreases cols.len(),
{
    if cols.len() == 0 {
        Seq::empty()
    } else {
        let rest = spec_present_names(cols.drop_first(), m);
        match spec_map_get(m, cols[0].name@) {
            Some(_) => seq![seq!['"'] + db_name_of(cols[0].name@) + seq!['"']] + rest,
            None => rest,
        }
    }
}

/// The bound values of the declared columns that the value map holds, in
/// declaration order.
pub open spec fn spec_present_args(
    cols: Seq<ColumnInfo>,
    m: Seq<(Seq<char>, Seq<char>)>,
) -> Seq<ValueModel>
    decreases cols.len(),
{
    if cols.len() == 0 {
        Seq::empty()
    } else {
        let rest = spec_present_args(cols.drop_first(), m);
        match spec_map_get(m, cols[0].name@) {
            Some(v) => seq![ValueModel::Text(v)] + rest,
            None => rest,
        }
    }
}

/// One bound value per declared column: the mapped value, or NULL when
/// the map leaves the column out.
pub open spec fn spec_row_args(
    cols: Seq<ColumnInfo>,
    m: Seq<(Seq<char>, Seq<char>)>,
) -> Seq<ValueModel>
    decreases cols.len(),
{
    if cols.len() == 0 {
        Seq::empty()
    } else {
        seq![
            match spec_map_get(m, cols[0].name@) {
                Some(v) => ValueModel::Text(v),
                None => ValueModel::Null,
            },
        ] + spec_row_args(cols.drop_first(), m)
    }
}

/// A full row binds one value per declared column.
pub proof fn lemma_row_args_len(cols: Seq<ColumnInfo>, m: Seq<(Seq<char>, Seq<char>)>)
    ensures
        spec_row_args(cols, m).len() == cols.len(),
    decreases cols.len(),
{
    if cols.len() > 0 {
        lemma_row_args_len(cols.drop_first(), m);
    }
}

/// The bound values of all rows of a batch, row by row.
pub open spec fn spec_batch_args(
    cols: Seq<ColumnInfo>,
    rows: Seq<Seq<(Seq<char>, Seq<char>)>>,
) -> Seq<ValueModel>
    decreases rows.len(),
{
    if rows.len() == 0 {
        Seq::empty()
    } else {
        spec_row_args(cols, rows[0]) + spec_batch_args(cols, rows.drop_first())
    }
}

/// The placeholder tuples of a batch, numbered continuously from `start`.
pub open spec fn spec_batch_tuples(
    driver: Drivers,
    start: nat,
    ncols: nat,
    nrows: nat,
) -> Seq<char>
    decreases nrows,
{
    if nrows == 0 {
        Seq::empty()
    } else if nrows == 1 {
        seq!['('] + spec_ph_list(driver, start, ncols) + seq![')']
    } else {
        seq!['('] + spec_ph_list(driver, start, ncols) + seq![')'] + ", "@ + spec_batch_tuples(
            driver,
            start + ncols,
            ncols,
            (nrows - 1) as nat,
        )
    }
}

/// Appending one more row's tuple extends the text on the right.
pub proof fn lemma_batch_tuples_snoc(driver: Drivers, start: nat, ncols: nat, nrows: nat)
    requires
        nrows >= 1,
    ensures
        spec_batch_tuples(driver, start, ncols, nrows + 1) == spec_batch_tuples(
            driver,
            start,
            ncols,
            nrows,
        ) + ", "@ + (seq!['('] + spec_ph_list(driver, start + nrows * ncols, ncols) + seq![')']),
    decreases nrows,
{
    if nrows == 1 {
        assert(1 * ncols == ncols);
        assert(spec_batch_tuples(driver, start, ncols, 2) == seq!['('] + spec_ph_list(
            driver,
            start,
            ncols,
        ) + seq![')'] + ", "@ + spec_batch_tuples(driver, start + ncols, ncols, 1));
        assert((seq!['('] + spec_ph_list(driver, start, ncols) + seq![')']) + ", "@ + (seq!['(']
            + spec_ph_list(driver, start + ncols, ncols) + seq![')']) =~= seq!['('] + spec_ph_list(
            driver,
            start,
            ncols,
        ) + seq![')'] + ", "@ + (seq!['('] + spec_ph_list(driver, start + ncols, ncols)
            + seq![')']));
    } else {
        lemma_batch_tuples_snoc(driver, start + ncols, ncols, (nrows - 1) as nat);
        assert(start + ncols + (nrows - 1) * ncols == start + nrows * ncols) by (nonlinear_arith);
        let head = seq!['('] + spec_ph_list(driver, start, ncols) + seq![')'] + ", "@;
        let mid = spec_batch_tuples(driver, start + ncols, ncols, (nrows - 1) as nat);
        let tail = ", "@ + (seq!['('] + spec_ph_list(driver, start + nrows * ncols, ncols)
            + seq![')']);
        assert(spec_batch_tuples(driver, start, ncols, nrows + 1) == head + (mid + tail));
        assert(head + (mid + tail) =~= (head + mid) + tail);
    }
}

/// Renders `k` comma-separated placeholders numbered from 1.
fn ph_list_from_one(driver: Drivers, k: usize) -> (r: String)
    ensures
        r@ == spec_ph_list(driver, 1, k as nat),
{
    let mut acc = String::new();
    let mut j: usize = 0;
    while j < k
        invariant
            0 <= j <= k,
            acc@ == spec_ph_list(driver, 1, j as nat),
        decreases k - j,
    {
        let p = crate::dialect::placeholder(driver, j + 1);
        if j > 0 {
            proof {
                crate::filter::lemma_ph_list_snoc(driver, 1, j as nat);
            }
            acc = acc.concat(", ").concat(p.as_str());
        } else {
            acc = acc.concat(p.as_str());
        }
        j = j + 1;
    }
    acc
}

impl QueryBuilder {
    /// The INSERT statement for one value map: the declared columns the
    /// map holds, in declaration order, with one placeholder and one
    /// bound value each.
    pub open spec fn spec_insert_sql(self, m: Seq<(Seq<char>, Seq<char>)>) -> Seq<char> {
        "INSERT INTO \""@ + self.table@ + "\" ("@ + join_texts(
            spec_present_names(self.columns@, m),
            ", "@,
        ) + ") VALUES ("@ + spec_ph_list(self.driver, 1, spec_present_args(self.columns@, m).len())
            + ")"@
    }

    /// Renders an INSERT from the value map, binding the mapped values in
    /// column declaration order.
    pub fn insert_sql(&self, map: &ValueMap) -> (r: (String, Vec<Value>))
        ensures
            r.0@ == self.spec_insert_sql(map.deep_view()),
            r.1.deep_view() == spec_present_args(self.columns@, map.deep_view()),
    {
        let ghost m = map.deep_view();
        let mut names: Vec<String> = Vec::new();
        let mut args: Vec<Value> = Vec::new();
        let mut i: usize = 0;
        proof {
            assert(self.columns@.take(0) =~= Seq::<ColumnInfo>::empty());
            assert(names.deep_view() =~= spec_present_names(self.columns@.take(0), m));
            assert(args.deep_view() =~= spec_present_args(self.columns@.take(0), m));
        }
        while i < self.columns.len()
            invariant
                0 <= i <= self.columns@.len(),
                names.deep_view() =~= spec_present_names(self.columns@.take(i as int), m),
                args.deep_view() =~= spec_present_args(self.columns@.take(i as int), m),
                m == map.deep_view(),
            decreases self.columns@.len() - i,
        {
            let col = self.columns[i];
            let key = String::from_str(col.name);
            let ghost pre_names = names.deep_view();
            let ghost pre_args = args.deep_view();
            match crate::model::map_get(map, &key) {
                Some(v) => {
                    let quoted = String::from_str("\"").concat(
                        crate::text::db_name(col.name).as_str(),
                    ).concat("\"");
                    proof {
                        reveal_strlit("\"");
                        assert("\""@ =~= seq!['"']);
                        assert(quoted@ == seq!['"'] + db_name_of(col.name@) + seq!['"']);
                    }
                    let ghost pre = names@;
                    names.push(quoted);
                    proof {
                        assert forall|jj: int| 0 <= jj < names@.len() implies names.deep_view()[jj]
                            == pre_names.push(
                            seq!['"'] + db_name_of(col.name@) + seq!['"'],
                        )[jj] by {
                            assert(names.deep_view()[jj] == names@[jj]@);
                            if jj < pre.len() {
                                assert(names@[jj] == pre[jj]);
                                assert(pre_names[jj] == pre[jj]@);
                            }
                        }
                        assert(names.deep_view() =~= pre_names.push(
                            seq!['"'] + db_name_of(col.name@) + seq!['"'],
                        ));
                    }
                    let tv = Value::Text(v);
                    crate::value::push_value(&mut args, &tv);
                },
                None => {},
            }
            proof {
                let cx = self.columns@.take(i as int).push(self.columns@[i as int]);
                assert(cx =~= self.columns@.take(i + 1));
                lemma_present_snoc(self.columns@.take(i as int), self.columns@[i as int], m);
                match spec_map_get(m, self.columns@[i as int].name@) {
                    Some(v) => {
                        assert(pre_names + seq![
                            seq!['"'] + db_name_of(self.columns@[i as int].name@) + seq!['"'],
                        ] =~= pre_names.push(
                            seq!['"'] + db_name_of(self.columns@[i as int].name@) + seq!['"'],
                        ));
                        assert(pre_args + seq![ValueModel::Text(v)] =~= pre_args.push(
                            ValueModel::Text(v),
                        ));
                    },
                    None => {
                        assert(pre_names + Seq::<Seq<char>>::empty() =~= pre_names);
                        assert(pre_args + Seq::<ValueModel>::empty() =~= pre_args);
                    },
                }
            }
            i = i + 1;
        }
        proof {
            assert(self.columns@.take(self.columns@.len() as int) =~= self.columns@);
        }
        let n = args.len();
        proof {
            assert(n as nat == spec_present_args(self.columns@, m).len());
        }
        let cols_text = crate::text::join_strings(&names, ", ");
        let phs = ph_list_from_one(self.driver, n);
        let sql = String::from_str("INSERT INTO \"").concat(self.table.as_str()).concat(
            "\" (",
        ).concat(cols_text.as_str()).concat(") VALUES (").concat(phs.as_str()).concat(")");
        (sql, args)
    }

    /// The batch INSERT statement: all declared columns, one placeholder
    /// tuple per row, numbered continuously.
    pub open spec fn spec_batch_insert_sql(self, nrows: nat) -> Seq<char> {
        "INSERT INTO \""@ + self.table@ + "\" ("@ + join_texts(
            spec_all_col_names(self.columns@),
            ", "@,
        ) + ") VALUES "@ + spec_batch_tuples(self.driver, 1, self.columns@.len(), nrows)
    }

    /// Renders one multi-row INSERT for the batch: every declared column,
    /// a NULL bound where a row's map leaves a column out. An empty batch
    /// is a no-op: no statement is produced, so no network call is made
    /// and the operation reports success with zero affected rows.
    pub fn batch_insert_sql(&self, rows: &Vec<ValueMap>) -> (r: Option<(String, Vec<Value>)>)
        ensures
            (rows@.len() == 0) <==> (r is None),
            r matches Some(q) ==> q.0@ == self.spec_batch_insert_sql(rows@.len() as nat)
                && q.1.deep_view() == spec_batch_args(self.columns@, rows.deep_view()),
    {
        if rows.len() == 0 {
            return None;
        }
        let ghost rws = rows.deep_view();
        let mut names: Vec<String> = Vec::new();
        let mut i: usize = 0;
        proof {
            assert(self.columns@.take(0) =~= Seq::<ColumnInfo>::empty());
            assert(names.deep_view() =~= spec_all_col_names(self.columns@.take(0)));
        }
        while i < self.columns.len()
            invariant
                0 <= i <= self.columns@.len(),
                names.deep_view() =~= spec_all_col_names(self.columns@.take(i as int)),
            decreases self.columns@.len() - i,
        {
            let col = self.columns[i];
            let quoted = String::from_str("\"").concat(
                crate::text::db_name(col.name).as_str(),
            ).concat("\"");
            proof {
                reveal_strlit("\"");
                assert("\""@ =~= seq!['"']);
            }
            let ghost pre_names = names.deep_view();
            let ghost pre = names@;
            names.push(quoted);
            proof {
                assert forall|jj: int| 0 <= jj < names@.len() implies names.deep_view()[jj]
                    == pre_names.push(
                    seq!['"'] + db_name_of(self.columns@[i as int].name@) + seq!['"'],
                )[jj] by {
                    assert(names.deep_view()[jj] == names@[jj]@);
                    if jj < pre.len() {
                        assert(names@[jj] == pre[jj]);
                        assert(pre_names[jj] == pre[jj]@);
                    }
                }
                assert(names.deep_view() =~= pre_names.push(
                    seq!['"'] + db_name_of(self.columns@[i as int].name@) + seq!['"'],
                ));
                lemma_all_names_snoc(self.columns@.take(i as int), self.columns@[i as int]);
                assert(self.columns@.take(i as int).push(self.columns@[i as int]) =~=
                    self.columns@.take(i + 1));
                assert(pre_names + seq![
                    seq!['"'] + db_name_of(self.columns@[i as int].name@) + seq!['"'],
                ] =~= pre_names.push(
                    seq!['"'] + db_name_of(self.columns@[i as int].name@) + seq!['"'],
                ));
            }
            i = i + 1;
        }
        proof {
            assert(self.columns@.take(self.columns@.len() as int) =~= self.columns@);
        }
        let mut args: Vec<Value> = Vec::new();
        let mut tuples = String::new();
        let mut rix: usize = 0;
        proof {
            assert(rws.take(0) =~= Seq::<Seq<(Seq<char>, Seq<char>)>>::empty());
            assert(args.deep_view() =~= spec_batch_args(self.columns@, rws.take(0)));
        }
        while rix < rows.len()
            invariant
                0 <= rix <= rows@.len(),
                rws == rows.deep_view(),
                args.deep_view() =~= spec_batch_args(self.columns@, rws.take(rix as int)),
                tuples@ == spec_batch_tuples(
                    self.driver,
                    1,
                    self.columns@.len(),
                    rix as nat,
                ),
                args.deep_view().len() == rix * self.columns@.len(),
            decreases rows@.len() - rix,
        {
            let row = &rows[rix];
            let ghost mrow = rws[rix as int];
            proof {
                assert(rws[rix as int] == rows@[rix as int].deep_view());
            }
            let ghost row_base = args.deep_view().len();
            let ghost row_start: nat = row_base + 1;
            let mut tuple = String::new();
            let mut j: usize = 0;
            proof {
                assert(self.columns@.take(0) =~= Seq::<ColumnInfo>::empty());
                assert(spec_row_args(self.columns@.take(0), mrow) =~= Seq::<ValueModel>::empty());
                assert(args.deep_view() + Seq::<ValueModel>::empty() =~= args.deep_view());
            }
            let ghost pre_row = args.deep_view();
            while j < self.columns.len()
                invariant
                    0 <= j <= self.columns@.len(),
                    mrow == rows@[rix as int].deep_view(),
                    row.deep_view() == mrow,
                    0 <= rix < rows@.len(),
                    args.deep_view() =~= pre_row + spec_row_args(
                        self.columns@.take(j as int),
                        mrow,
                    ),
                    tuple@ == spec_ph_list(self.driver, row_start, j as nat),
                    row_start == pre_row.len() + 1,
                decreases self.columns@.len() - j,
            {
                let col = self.columns[j];
                let key = String::from_str(col.name);
                let v = match crate::model::map_get(row, &key) {
                    Some(s) => Value::Text(s),
                    None => Value::Null,
                };
                crate::value::push_value(&mut args, &v);
                let idx = args.len();
                proof {
                    assert(key@ == self.columns@[j as int].name@);
                    assert(v@ == (match spec_map_get(mrow, self.columns@[j as int].name@) {
                        Some(vv) => ValueModel::Text(vv),
                        None => ValueModel::Null,
                    }));
                    lemma_row_args_len(self.columns@.take(j as int), mrow);
                    assert(spec_row_args(self.columns@.take(j as int), mrow).len() == j);
                    assert(idx as nat == row_start + j as nat);
                    lemma_row_args_snoc(self.columns@.take(j as int), self.columns@[j as int], mrow);
                    assert(self.columns@.take(j as int).push(self.columns@[j as int]) =~=
                        self.columns@.take(j + 1));
                    assert(pre_row + (spec_row_args(self.columns@.take(j as int), mrow) + seq![v@])
                        =~= (pre_row + spec_row_args(self.columns@.take(j as int), mrow)) + seq![
                        v@,
                    ]);
                    assert((pre_row + spec_row_args(self.columns@.take(j as int), mrow)).push(v@)
                        =~= (pre_row + spec_row_args(self.columns@.take(j as int), mrow)) + seq![
                        v@,
                    ]);
                }
                let p = crate::dialect::placeholder(self.driver, idx);
                if j > 0 {
                    proof {
                        crate::filter::lemma_ph_list_snoc(self.driver, row_start, j as nat);
                    }
                    tuple = tuple.concat(", ").concat(p.as_str());
                } else {
                    tuple = tuple.concat(p.as_str());
                }
                j = j + 1;
            }
            proof {
                assert(self.columns@.take(self.columns@.len() as int) =~= self.columns@);
                lemma_row_args_len(self.columns@, mrow);
            }
            if rix > 0 {
                proof {
                    lemma_batch_tuples_snoc(self.driver, 1, self.columns@.len(), rix as nat);
                }
                tuples = tuples.concat(", ").concat("(").concat(tuple.as_str()).concat(")");
                proof {
                    reveal_strlit("(");
                    reveal_strlit(")");
                    assert("("@ =~= seq!['(']);
                    assert(")"@ =~= seq![')']);
                }
            } else {
                tuples = tuples.concat("(").concat(tuple.as_str()).concat(")");
                proof {
                    reveal_strlit("(");
                    reveal_strlit(")");
                    assert("("@ =~= seq!['(']);
                    assert(")"@ =~= seq![')']);
                }
            }
            proof {
                lemma_batch_args_snoc(self.columns@, rws.take(rix as int), rws[rix as int]);
                assert(rws.take(rix as int).push(rws[rix as int]) =~= rws.take(rix + 1));
                assert((rix + 1) * self.columns@.len() == rix * self.columns@.len()
                    + self.columns@.len()) by (nonlinear_arith);
            }
            rix = rix + 1;
        }
        proof {
            assert(rws.take(rows@.len() as int) =~= rws);
        }
        let cols_text = crate::text::join_strings(&names, ", ");
        let sql = String::from_str("INSERT INTO \"").concat(self.table.as_str()).concat(
            "\" (",
        ).concat(cols_text.as_str()).concat(") VALUES ").concat(tuples.as_str());
        Some((sql, args))
    }

    /// The DELETE statement honoring the current WHERE state.
    pub open spec fn spec_delete_sql(self) -> Seq<char> {
        "DELETE FROM \""@ + self.table@ + "\""@ + self.spec_where(1)
    }

    /// Renders a DELETE honoring the current WHERE state, with its bind
    /// values.
    pub fn hard_delete_sql(&self) -> (r: (String, Vec<Value>))
        requires
            self.wf(),
        ensures
            r.0@ == self.spec_delete_sql(),
            r.1.deep_view() == entries_args(self.where_entries@),
    {
        let mut args: Vec<Value> = Vec::new();
        proof {
            assert(args.deep_view() =~= Seq::<ValueModel>::empty());
        }
        let wsql = if self.where_entries.len() > 0 {
            let inner = crate::builder::render_entries(
                &self.where_entries,
                self.driver,
                &self.alias,
                &mut args,
            );
            String::from_str(" WHERE ").concat(inner.as_str())
        } else {
            proof {
                assert(entries_args(self.where_entries@) =~= Seq::<ValueModel>::empty());
            }
            String::new()
        };
        proof {
            assert(Seq::<ValueModel>::empty() + entries_args(self.where_entries@) =~=
                entries_args(self.where_entries@));
            assert(wsql@ == self.spec_where(1));
        }
        let sql = String::from_str("DELETE FROM \"").concat(self.table.as_str()).concat(
            "\"",
        ).concat(wsql.as_str());
        (sql, args)
    }

    /// The soft-delete UPDATE: the contract's soft-delete column is set
    /// through the first placeholder, and the WHERE placeholders follow.
    pub open spec fn spec_soft_delete_sql(self, col: Seq<char>) -> Seq<char> {
        "UPDATE \""@ + self.table@ + "\" SET \""@ + col + "\" = "@
            + crate::dialect::spec_placeholder(self.driver, 1) + self.spec_where(2)
    }

    /// Renders the soft-delete UPDATE where the contract declares a
    /// soft-delete column: that column is set to true and the WHERE state
    /// is honored. Without such a column, no statement is produced.
    pub fn soft_delete_sql(&self) -> (r: Option<(String, Vec<Value>)>)
        requires
            self.wf(),
        ensures
            (r is None) <==> (spec_soft_col(self.columns@) is None),
            r matches Some(q) ==> spec_soft_col(self.columns@) matches Some(c) && q.0@
                == self.spec_soft_delete_sql(c) && q.1.deep_view() == seq![ValueModel::Bool(true)]
                + entries_args(self.where_entries@),
    {
        let mut sd: Option<String> = None;
        let mut i: usize = 0;
        proof {
            assert(self.columns@.skip(0) =~= self.columns@);
        }
        while i < self.columns.len() && sd.is_none()
            invariant
                0 <= i <= self.columns@.len(),
                sd is None ==> spec_soft_col(self.columns@) == spec_soft_col(
                    self.columns@.skip(i as int),
                ),
                sd matches Some(c) ==> spec_soft_col(self.columns@) == Some(c@),
            decreases self.columns@.len() - i,
        {
            let col = self.columns[i];
            proof {
                assert(self.columns@.skip(i as int)[0] == self.columns@[i as int]);
                assert(self.columns@.skip(i as int).drop_first() =~= self.columns@.skip(i + 1));
            }
            if col.soft_delete {
                sd = Some(crate::text::db_name(col.name));
            }
            i = i + 1;
        }
        match sd {
            None => {
                proof {
                    assert(self.columns@.skip(i as int).len() == 0);
                }
                None
            },
            Some(col) => {
                let mut args: Vec<Value> = Vec::new();
                let tv = Value::Bool(true);
                crate::value::push_value(&mut args, &tv);
                proof {
                    assert(args.deep_view() =~= seq![ValueModel::Bool(true)]);
                }
                let wsql = if self.where_entries.len() > 0 {
                    let inner = crate::builder::render_entries(
                        &self.where_entries,
                        self.driver,
                        &self.alias,
                        &mut args,
                    );
                    String::from_str(" WHERE ").concat(inner.as_str())
                } else {
                    proof {
                        assert(entries_args(self.where_entries@) =~= Seq::<ValueModel>::empty());
                        assert(args.deep_view() + Seq::<ValueModel>::empty() =~= args.deep_view());
                    }
                    String::new()
                };
                proof {
                    assert(wsql@ == self.spec_where(2));
                    assert(args.deep_view() =~= seq![ValueModel::Bool(true)] + entries_args(
                        self.where_entries@,
                    ));
                }
                let p = crate::dialect::placeholder(self.driver, 1);
                let sql = String::from_str("UPDATE \"").concat(self.table.as_str()).concat(
                    "\" SET \"",
                ).concat(col.as_str()).concat("\" = ").concat(p.as_str()).concat(wsql.as_str());
                Some((sql, args))
            },
        }
    }
}

/// The database-format name of the first declared soft-delete column.
pub open spec fn spec_soft_col(cols: Seq<ColumnInfo>) -> Option<Seq<char>>
    decreases cols.len(),
{
    if cols.len() == 0 {
        None
    } else if cols[0].soft_delete {
        Some(db_name_of(cols[0].name@))
    } else {
        spec_soft_col(cols.drop_first())
    }
}

/// Appending one more column extends names and args of the present set.
proof fn lemma_present_snoc(
    cols: Seq<ColumnInfo>,
    x: ColumnInfo,
    m: Seq<(Seq<char>, Seq<char>)>,
)
    ensures
        spec_present_names(cols.push(x), m) == spec_present_names(cols, m) + (match spec_map_get(
            m,
            x.name@,
        ) {
            Some(_) => seq![seq!['"'] + db_name_of(x.name@) + seq!['"']],
            None => Seq::<Seq<char>>::empty(),
        }),
        spec_present_args(cols.push(x), m) == spec_present_args(cols, m) + (match spec_map_get(
            m,
            x.name@,
        ) {
            Some(v) => seq![ValueModel::Text(v)],
            None => Seq::<ValueModel>::empty(),
        }),
    decreases cols.len(),
{
    let cx = cols.push(x);
    let names_tail = match spec_map_get(m, x.name@) {
        Some(_) => seq![seq!['"'] + db_name_of(x.name@) + seq!['"']],
        None => Seq::<Seq<char>>::empty(),
    };
    let args_tail = match spec_map_get(m, x.name@) {
        Some(v) => seq![ValueModel::Text(v)],
        None => Seq::<ValueModel>::empty(),
    };
    if cols.len() == 0 {
        assert(cx[0] == x);
        assert(cx.drop_first() =~= Seq::<ColumnInfo>::empty());
        assert(spec_present_names(Seq::<ColumnInfo>::empty(), m) =~= Seq::<Seq<char>>::empty());
        assert(spec_present_args(Seq::<ColumnInfo>::empty(), m) =~= Seq::<ValueModel>::empty());
        assert(spec_present_names(cx, m) =~= names_tail);
        assert(spec_present_names(cols, m) + names_tail =~= names_tail);
        assert(spec_present_args(cx, m) =~= args_tail);
        assert(spec_present_args(cols, m) + args_tail =~= args_tail);
    } else {
        assert(cx[0] == cols[0]);
        assert(cx.drop_first() =~= cols.drop_first().push(x));
        lemma_present_snoc(cols.drop_first(), x, m);
        match spec_map_get(m, cols[0].name@) {
            Some(v) => {
                assert(seq![seq!['"'] + db_name_of(cols[0].name@) + seq!['"']] + (
                spec_present_names(cols.drop_first(), m) + names_tail) =~= (seq![
                    seq!['"'] + db_name_of(cols[0].name@) + seq!['"'],
                ] + spec_present_names(cols.drop_first(), m)) + names_tail);
                assert(seq![ValueModel::Text(v)] + (spec_present_args(cols.drop_first(), m)
                    + args_tail) =~= (seq![ValueModel::Text(v)] + spec_present_args(
                    cols.drop_first(),
                    m,
                )) + args_tail);
            },
            None => {},
        }
    }
}

/// Appending one more column extends the quoted name list.
proof fn lemma_all_names_snoc(cols: Seq<ColumnInfo>, x: ColumnInfo)
    ensures
        spec_all_col_names(cols.push(x)) == spec_all_col_names(cols) + seq![
            seq!['"'] + db_name_of(x.name@) + seq!['"'],
        ],
    decreases cols.len(),
{
    let cx = cols.push(x);
    let tail = seq![seq!['"'] + db_name_of(x.name@) + seq!['"']];
    if cols.len() == 0 {
        assert(cx[0] == x);
        assert(cx.drop_first() =~= Seq::<ColumnInfo>::empty());
        assert(spec_all_col_names(Seq::<ColumnInfo>::empty()) =~= Seq::<Seq<char>>::empty());
        assert(spec_all_col_names(cx) =~= tail);
        assert(spec_all_col_names(cols) + tail =~= tail);
    } else {
        assert(cx[0] == cols[0]);
        assert(cx.drop_first() =~= cols.drop_first().push(x));
        lemma_all_names_snoc(cols.drop_first(), x);
        assert(seq![seq!['"'] + db_name_of(cols[0].name@) + seq!['"']] + (spec_all_col_names(
            cols.drop_first(),
        ) + tail) =~= (seq![seq!['"'] + db_name_of(cols[0].name@) + seq!['"']]
            + spec_all_col_names(cols.drop_first())) + tail);
    }
}

/// Appending one more column extends a row's bound values.
proof fn lemma_row_args_snoc(cols: Seq<ColumnInfo>, x: ColumnInfo, m: Seq<(Seq<char>, Seq<char>)>)
    ensures
        spec_row_args(cols.push(x), m) == spec_row_args(cols, m) + seq![
            match spec_map_get(m, x.name@) {
                Some(v) => ValueModel::Text(v),
                None => ValueModel::Null,
            },
        ],
    decreases cols.len(),
{
    let cx = cols.push(x);
    let tail = seq![
        match spec_map_get(m, x.name@) {
            Some(v) => ValueModel::Text(v),
            None => ValueModel::Null,
        },
    ];
    if cols.len() == 0 {
        assert(cx[0] == x);
        assert(cx.drop_first() =~= Seq::<ColumnInfo>::empty());
        assert(spec_row_args(Seq::<ColumnInfo>::empty(), m) =~= Seq::<ValueModel>::empty());
        assert(spec_row_args(cx, m) =~= tail);
        assert(spec_row_args(cols, m) + tail =~= tail);
    } else {
        assert(cx[0] == cols[0]);
        assert(cx.drop_first() =~= cols.drop_first().push(x));
        lemma_row_args_snoc(cols.drop_first(), x, m);
        let h = seq![
            match spec_map_get(m, cols[0].name@) {
                Some(v) => ValueModel::Text(v),
                None => ValueModel::Null,
            },
        ];
        assert(h + (spec_row_args(cols.drop_first(), m) + tail) =~= (h + spec_row_args(
            cols.drop_first(),
            m,
        )) + tail);
    }
}

/// Appending one more row extends the batch's bound values.
proof fn lemma_batch_args_snoc(
    cols: Seq<ColumnInfo>,
    rows: Seq<Seq<(Seq<char>, Seq<char>)>>,
    x: Seq<(Seq<char>, Seq<char>)>,
)
    ensures
        spec_batch_args(cols, rows.push(x)) == spec_batch_args(cols, rows) + spec_row_args(
            cols,
            x,
        ),
    decreases rows.len(),
{
    let rx = rows.push(x);
    if rows.len() == 0 {
        assert(rx[0] == x);
        assert(rx.drop_first() =~= Seq::<Seq<(Seq<char>, Seq<char>)>>::empty());
        assert(spec_batch_args(cols, Seq::<Seq<(Seq<char>, Seq<char>)>>::empty()) =~= Seq::<
            ValueModel,
        >::empty());
        assert(spec_batch_args(cols, rx) =~= spec_row_args(cols, x));
        assert(spec_batch_args(cols, rows) + spec_row_args(cols, x) =~= spec_row_args(cols, x));
    } else {
        assert(rx[0] == rows[0]);
        assert(rx.drop_first() =~= rows.drop_first().push(x));
        lemma_batch_args_snoc(cols, rows.drop_first(), x);
        assert(spec_row_args(cols, rows[0]) + (spec_batch_args(cols, rows.drop_first())
            + spec_row_args(cols, x)) =~= (spec_row_args(cols, rows[0]) + spec_batch_args(
            cols,
            rows.drop_first(),
        )) + spec_row_args(cols, x));
    }
}

} // verus!
