//! The query builder: an accumulator of clause state (projection, joins,
//! alias, filter trees, grouping, ordering, limit/offset) rendered to SQL
//! text plus a positional argument list. Rendering and argument collection
//! walk the same state in the same order, so the placeholder numbering of
//! the active dialect always matches the bound values.

use vstd::prelude::*;
use crate::dialect::Drivers;
use crate::filter::{
    arity_ok, arity_ok_list, is_binary_op, leaf_arity_ok, node_args, FilterNode, Op,
};
use crate::model::ColumnInfo;
use crate::value::{Value, ValueModel};

verus! {

/// How a join clause combines the target table.
#[derive(Debug, Clone, Copy, PartialEq, Eq, Structural)]
pub enum JoinKind {
    /// `LEFT JOIN`.
    Left,
    /// `INNER JOIN`.
    Inner,
}

/// One join clause: its kind, target table text, ON condition text, and
/// the bind values of the ON condition.
#[derive(Debug)]
pub struct Join {
    pub kind: JoinKind,
    pub target: String,
    pub on: String,
    pub values: Vec<Value>,
}

/// One top-level WHERE or HAVING entry: a predicate tree and whether it is
/// OR-joined (rather than AND-joined) to what came before it.
#[derive(Debug)]
pub struct WhereEntry {
    pub or: bool,
    pub node: FilterNode,
}

/// Every entry's tree carries well-arity leaves.
pub open spec fn entries_ok(s: Seq<WhereEntry>) -> bool {
    forall|i: int| 0 <= i < s.len() ==> arity_ok(#[trigger] s[i].node)
}

/// An entry holding a leaf predicate.
pub open spec fn is_leaf_entry(
    e: WhereEntry,
    or: bool,
    column: Seq<char>,
    op: Op,
    vals: Seq<ValueModel>,
) -> bool {
    e.or == or && match e.node {
        FilterNode::Leaf { column: c, op: o, values: v } => c@ == column && o == op
            && v.deep_view() == vals,
        _ => false,
    }
}

/// An entry holding a negated leaf predicate.
pub open spec fn is_not_leaf_entry(
    e: WhereEntry,
    or: bool,
    column: Seq<char>,
    op: Op,
    vals: Seq<ValueModel>,
) -> bool {
    e.or == or && match e.node {
        FilterNode::Not(b) => match *b {
            FilterNode::Leaf { column: c, op: o, values: v } => c@ == column && o == op
                && v.deep_view() == vals,
            _ => false,
        },
        _ => false,
    }
}

/// An entry holding a raw-text predicate.
pub open spec fn is_raw_entry(
    e: WhereEntry,
    or: bool,
    text: Seq<char>,
    vals: Seq<ValueModel>,
) -> bool {
    e.or == or && match e.node {
        FilterNode::Raw { text: t, values: v } => t@ == text && v.deep_view() == vals,
        _ => false,
    }
}

/// `r` is the left fold of the group's entries: each successive entry is
/// attached under a two-child `AND` or `OR` group according to its
/// connector.
pub open spec fn node_matches_fold(r: FilterNode, s: Seq<WhereEntry>) -> bool
    decreases s.len(),
{
    if s.len() == 0 {
        false
    } else if s.len() == 1 {
        r == s[0].node
    } else {
        match r {
            FilterNode::Or(cs) => s.last().or && cs@.len() == 2 && node_matches_fold(
                cs@[0],
                s.drop_last(),
            ) && cs@[1] == s.last().node,
            FilterNode::And(cs) => !s.last().or && cs@.len() == 2 && node_matches_fold(
                cs@[0],
                s.drop_last(),
            ) && cs@[1] == s.last().node,
            _ => false,
        }
    }
}

/// A nested filter scope, as handed to `or_group`: its accumulated
/// predicates become one parenthesized branch.
#[derive(Debug)]
pub struct FilterGroup {
    pub entries: Vec<WhereEntry>,
}

/// The query builder's accumulated clause state. Single-use: a terminal
/// operation renders the whole state at once.
#[derive(Debug)]
pub struct QueryBuilder {
    /// The active dialect.
    pub driver: Drivers,
    /// The bound table's name, in database format.
    pub table: String,
    /// The base table's alias, once set.
    pub alias: Option<String>,
    /// The bound table contract's column descriptors.
    pub columns: Vec<ColumnInfo>,
    /// The active column names, in database format, for the automatic
    /// projection.
    pub active_columns: Vec<String>,
    /// Raw projection fragments; empty means "all active columns".
    pub select_columns: Vec<String>,
    /// Columns excluded from the automatic projection, in database format.
    pub omitted: Vec<String>,
    /// Join clauses, in call order.
    pub joins: Vec<Join>,
    /// Top-level WHERE entries, in call order.
    pub where_entries: Vec<WhereEntry>,
    /// Top-level HAVING entries, in call order.
    pub having_entries: Vec<WhereEntry>,
    /// GROUP BY fragments, in call order.
    pub group_by: Vec<String>,
    /// ORDER BY fragments, in call order.
    pub order_clauses: Vec<String>,
    /// Row limit, once set.
    pub limit: Option<usize>,
    /// Row offset, once set.
    pub offset: Option<usize>,
}

impl QueryBuilder {
    /// The structural invariant: every accumulated predicate tree carries
    /// well-arity leaves, so the whole state can be rendered.
    pub open spec fn wf(self) -> bool {
        entries_ok(self.where_entries@) && entries_ok(self.having_entries@)
    }

    /// Tests at run time that every accumulated predicate tree can be
    /// rendered; true of any state built through this type's methods.
    pub fn check_renderable(&self) -> (r: bool)
        ensures
            r == self.wf(),
    {
        let mut i: usize = 0;
        while i < self.where_entries.len()
            invariant
                0 <= i <= self.where_entries@.len(),
                forall|j: int|
                    0 <= j < i ==> arity_ok(#[trigger] self.where_entries@[j].node),
            decreases self.where_entries@.len() - i,
        {
            if !crate::filter::arity_check(&self.where_entries[i].node) {
                return false;
            }
            i = i + 1;
        }
        let mut k: usize = 0;
        while k < self.having_entries.len()
            invariant
                0 <= k <= self.having_entries@.len(),
                forall|j: int|
                    0 <= j < k ==> arity_ok(#[trigger] self.having_entries@[j].node),
                entries_ok(self.where_entries@),
            decreases self.having_entries@.len() - k,
        {
            if !crate::filter::arity_check(&self.having_entries[k].node) {
                return false;
            }
            k = k + 1;
        }
        true
    }

    /// A fresh builder bound to a table contract: the table and active
    /// column names are normalized to database format, and every clause
    /// starts empty.
    pub fn new(
        driver: Drivers,
        table_name: &str,
        columns: Vec<ColumnInfo>,
        active_columns: &Vec<&'static str>,
    ) -> (r: Self)
        ensures
            r.driver == driver,
            r.table@ == crate::text::db_name_of(table_name@),
            r.alias is None,
            r.columns == columns,
            r.active_columns.deep_view().len() == active_columns@.len(),
            forall|i: int|
                0 <= i < active_columns@.len() ==> #[trigger] r.active_columns.deep_view()[i]
                    == crate::text::db_name_of(active_columns@[i]@),
            r.select_columns@.len() == 0,
            r.omitted@.len() == 0,
            r.joins@.len() == 0,
            r.where_entries@.len() == 0,
            r.having_entries@.len() == 0,
            r.group_by@.len() == 0,
            r.order_clauses@.len() == 0,
            r.limit is None,
            r.offset is None,
            r.wf(),
    {
        let table = crate::text::db_name(table_name);
        let mut actives: Vec<String> = Vec::new();
        let mut i: usize = 0;
        while i < active_columns.len()
            invariant
                0 <= i <= active_columns@.len(),
                actives.deep_view().len() == i,
                forall|j: int|
                    0 <= j < i ==> #[trigger] actives.deep_view()[j] == crate::text::db_name_of(
                        active_columns@[j]@,
                    ),
            decreases active_columns@.len() - i,
        {
            let ghost pre = actives@;
            let ghost pre_deep = actives.deep_view();
            let name = crate::text::db_name(active_columns[i]);
            actives.push(name);
            proof {
                assert forall|j: int| 0 <= j < i + 1 implies #[trigger] actives.deep_view()[j]
                    == crate::text::db_name_of(active_columns@[j]@) by {
                    assert(actives.deep_view()[j] == actives@[j]@);
                    if j < i {
                        assert(actives@[j] == pre[j]);
                        assert(pre_deep[j] == pre[j]@);
                    } else {
                        assert(actives@[j] == name);
                    }
                }
            }
            i = i + 1;
        }
        QueryBuilder {
            driver,
            table,
            alias: None,
            columns,
            active_columns: actives,
            select_columns: Vec::new(),
            omitted: Vec::new(),
            joins: Vec::new(),
            where_entries: Vec::new(),
            having_entries: Vec::new(),
            group_by: Vec::new(),
            order_clauses: Vec::new(),
            limit: None,
            offset: None,
        }
    }

    /// Appends a raw projection fragment; once any fragment is present the
    /// automatic "all active columns" projection is not used.
    pub fn select(self, text: &str) -> (r: Self)
        ensures
            r == (QueryBuilder { select_columns: r.select_columns, ..self }),
            r.select_columns.deep_view() == self.select_columns.deep_view().push(text@),
            self.wf() ==> r.wf(),
    {
        let mut s = self;
        let ghost pre = s.select_columns.deep_view();
        s.select_columns.push(String::from_str(text));
        proof {
            assert forall|i: int| 0 <= i < s.select_columns@.len() implies
                s.select_columns.deep_view()[i] == pre.push(text@)[i] by {
                assert(s.select_columns.deep_view()[i] == s.select_columns@[i]@);
            }
            assert(s.select_columns.deep_view() =~= pre.push(text@));
        }
        s
    }

    /// Excludes a column from the automatic projection; the name is
    /// normalized to database format.
    pub fn omit(self, column: &str) -> (r: Self)
        ensures
            r == (QueryBuilder { omitted: r.omitted, ..self }),
            r.omitted.deep_view() == self.omitted.deep_view().push(
                crate::text::db_name_of(column@),
            ),
            self.wf() ==> r.wf(),
    {
        let mut s = self;
        let ghost pre = s.omitted.deep_view();
        let name = crate::text::db_name(column);
        s.omitted.push(name);
        proof {
            assert forall|i: int| 0 <= i < s.omitted@.len() implies s.omitted.deep_view()[i]
                == pre.push(crate::text::db_name_of(column@))[i] by {
                assert(s.omitted.deep_view()[i] == s.omitted@[i]@);
            }
            assert(s.omitted.deep_view() =~= pre.push(crate::text::db_name_of(column@)));
        }
        s
    }

    /// Sets the base table's alias; self-referential filters and the
    /// automatic projection qualify with it from then on.
    pub fn alias(self, name: &str) -> (r: Self)
        ensures
            r == (QueryBuilder { alias: r.alias, ..self }),
            r.alias matches Some(a) && a@ == name@,
            self.wf() ==> r.wf(),
    {
        QueryBuilder { alias: Some(String::from_str(name)), ..self }
    }

    /// Sets the row limit.
    pub fn limit(self, n: usize) -> (r: Self)
        ensures
            r == (QueryBuilder { limit: r.limit, ..self }),
            r.limit == Some(n),
            self.wf() ==> r.wf(),
    {
        QueryBuilder { limit: Some(n), ..self }
    }

    /// Sets the row offset.
    pub fn offset(self, n: usize) -> (r: Self)
        ensures
            r == (QueryBuilder { offset: r.offset, ..self }),
            r.offset == Some(n),
            self.wf() ==> r.wf(),
    {
        QueryBuilder { offset: Some(n), ..self }
    }

    /// Appends an ORDER BY fragment.
    pub fn order(self, text: &str) -> (r: Self)
        ensures
            r == (QueryBuilder { order_clauses: r.order_clauses, ..self }),
            r.order_clauses.deep_view() == self.order_clauses.deep_view().push(text@),
            self.wf() ==> r.wf(),
    {
        let mut s = self;
        let ghost pre = s.order_clauses.deep_view();
        s.order_clauses.push(String::from_str(text));
        proof {
            assert forall|i: int| 0 <= i < s.order_clauses@.len() implies
                s.order_clauses.deep_view()[i] == pre.push(text@)[i] by {
                assert(s.order_clauses.deep_view()[i] == s.order_clauses@[i]@);
            }
            assert(s.order_clauses.deep_view() =~= pre.push(text@));
        }
        s
    }

    /// Appends a GROUP BY fragment.
    pub fn group_by(self, text: &str) -> (r: Self)
        ensures
            r == (QueryBuilder { group_by: r.group_by, ..self }),
            r.group_by.deep_view() == self.group_by.deep_view().push(text@),
            self.wf() ==> r.wf(),
    {
        let mut s = self;
        let ghost pre = s.group_by.deep_view();
        s.group_by.push(String::from_str(text));
        proof {
            assert forall|i: int| 0 <= i < s.group_by@.len() implies s.group_by.deep_view()[i]
                == pre.push(text@)[i] by {
                assert(s.group_by.deep_view()[i] == s.group_by@[i]@);
            }
            assert(s.group_by.deep_view() =~= pre.push(text@));
        }
        s
    }

    /// Appends a join clause of the given kind.
    fn push_join(self, kind: JoinKind, target: &str, on: &str, values: Vec<Value>) -> (r: Self)
        ensures
            r == (QueryBuilder { joins: r.joins, ..self }),
            r.joins@.len() == self.joins@.len() + 1,
            r.joins@ == self.joins@.push(r.joins@.last()),
            r.joins@.last().kind == kind,
            r.joins@.last().target@ == target@,
            r.joins@.last().on@ == on@,
            r.joins@.last().values.deep_view() == values.deep_view(),
            self.wf() ==> r.wf(),
    {
        let mut s = self;
        let j = Join { kind, target: String::from_str(target), on: String::from_str(on), values };
        s.joins.push(j);
        proof {
            assert(s.joins@ =~= self.joins@.push(s.joins@.last()));
        }
        s
    }

    /// Appends a `LEFT JOIN` with a raw ON condition.
    pub fn join(self, target: &str, on: &str) -> (r: Self)
        ensures
            r == (QueryBuilder { joins: r.joins, ..self }),
            r.joins@.len() == self.joins@.len() + 1,
            r.joins@ == self.joins@.push(r.joins@.last()),
            r.joins@.last().kind == JoinKind::Left,
            r.joins@.last().target@ == target@,
            r.joins@.last().on@ == on@,
            r.joins@.last().values.deep_view() == Seq::<ValueModel>::empty(),
            self.wf() ==> r.wf(),
    {
        let values: Vec<Value> = Vec::new();
        proof {
            assert(values.deep_view() =~= Seq::<ValueModel>::empty());
        }
        self.push_join(JoinKind::Left, target, on, values)
    }

    /// Appends an `INNER JOIN` with a raw ON condition.
    pub fn inner_join(self, target: &str, on: &str) -> (r: Self)
        ensures
            r == (QueryBuilder { joins: r.joins, ..self }),
            r.joins@.len() == self.joins@.len() + 1,
            r.joins@ == self.joins@.push(r.joins@.last()),
            r.joins@.last().kind == JoinKind::Inner,
            r.joins@.last().target@ == target@,
            r.joins@.last().on@ == on@,
            r.joins@.last().values.deep_view() == Seq::<ValueModel>::empty(),
            self.wf() ==> r.wf(),
    {
        let values: Vec<Value> = Vec::new();
        proof {
            assert(values.deep_view() =~= Seq::<ValueModel>::empty());
        }
        self.push_join(JoinKind::Inner, target, on, values)
    }

    /// Appends a `LEFT JOIN` whose ON condition carries one bound value
    /// for a placeholder of its own.
    pub fn join_raw(self, target: &str, on: &str, value: Value) -> (r: Self)
        ensures
            r == (QueryBuilder { joins: r.joins, ..self }),
            r.joins@.len() == self.joins@.len() + 1,
            r.joins@ == self.joins@.push(r.joins@.last()),
            r.joins@.last().kind == JoinKind::Left,
            r.joins@.last().target@ == target@,
            r.joins@.last().on@ == on@,
            r.joins@.last().values.deep_view() == seq![value@],
            self.wf() ==> r.wf(),
    {
        let ghost v = value@;
        let mut values: Vec<Value> = Vec::new();
        values.push(value);
        proof {
            assert forall|i: int| 0 <= i < 1 implies values.deep_view()[i] == seq![v][i] by {
                assert(values.deep_view()[0] == values@[0]@);
            }
            assert(values.deep_view() =~= seq![v]);
        }
        self.push_join(JoinKind::Left, target, on, values)
    }

    /// Appends a WHERE entry.
    fn push_where(self, or: bool, node: FilterNode) -> (r: Self)
        ensures
            r == (QueryBuilder { where_entries: r.where_entries, ..self }),
            r.where_entries@ == self.where_entries@.push(WhereEntry { or, node }),
            arity_ok(node) && self.wf() ==> r.wf(),
    {
        let mut s = self;
        s.where_entries.push(WhereEntry { or, node });
        proof {
            if arity_ok(s.where_entries@.last().node) && self.wf() {
                assert forall|i: int| 0 <= i < s.where_entries@.len() implies arity_ok(
                    #[trigger] s.where_entries@[i].node,
                ) by {
                    if i < self.where_entries@.len() {
                        assert(s.where_entries@[i] == self.where_entries@[i]);
                    }
                }
            }
        }
        s
    }

    /// Appends a HAVING entry.
    fn push_having(self, or: bool, node: FilterNode) -> (r: Self)
        ensures
            r == (QueryBuilder { having_entries: r.having_entries, ..self }),
            r.having_entries@ == self.having_entries@.push(WhereEntry { or, node }),
            arity_ok(node) && self.wf() ==> r.wf(),
    {
        let mut s = self;
        s.having_entries.push(WhereEntry { or, node });
        proof {
            if arity_ok(s.having_entries@.last().node) && self.wf() {
                assert forall|i: int| 0 <= i < s.having_entries@.len() implies arity_ok(
                    #[trigger] s.having_entries@[i].node,
                ) by {
                    if i < self.having_entries@.len() {
                        assert(s.having_entries@[i] == self.having_entries@[i]);
                    }
                }
            }
        }
        s
    }
}

/// A one-value leaf node for a binary comparison.
fn binary_leaf(column: &str, op: Op, value: Value) -> (r: FilterNode)
    requires
        is_binary_op(op),
    ensures
        r matches FilterNode::Leaf { column: c, op: o, values: v } && c@ == column@ && o == op
            && v.deep_view() == seq![value@],
        arity_ok(r),
{
    let ghost vm = value@;
    let mut values: Vec<Value> = Vec::new();
    values.push(value);
    proof {
        assert forall|i: int| 0 <= i < 1 implies values.deep_view()[i] == seq![vm][i] by {
            assert(values.deep_view()[0] == values@[0]@);
        }
        assert(values.deep_view() =~= seq![vm]);
    }
    FilterNode::Leaf { column: String::from_str(column), op, values }
}

impl QueryBuilder {
    /// Appends an AND-joined leaf comparing `column` against `value`.
    pub fn filter(self, column: &str, op: Op, value: Value) -> (r: Self)
        requires
            is_binary_op(op),
        ensures
            r == (QueryBuilder { where_entries: r.where_entries, ..self }),
            r.where_entries@.len() == self.where_entries@.len() + 1,
            r.where_entries@ == self.where_entries@.push(r.where_entries@.last()),
            is_leaf_entry(r.where_entries@.last(), false, column@, op, seq![value@]),
            self.wf() ==> r.wf(),
    {
        let node = binary_leaf(column, op, value);
        self.push_where(false, node)
    }

    /// Appends an OR-joined leaf comparing `column` against `value`.
    pub fn or_filter(self, column: &str, op: Op, value: Value) -> (r: Self)
        requires
            is_binary_op(op),
        ensures
            r == (QueryBuilder { where_entries: r.where_entries, ..self }),
            r.where_entries@.len() == self.where_entries@.len() + 1,
            r.where_entries@ == self.where_entries@.push(r.where_entries@.last()),
            is_leaf_entry(r.where_entries@.last(), true, column@, op, seq![value@]),
            self.wf() ==> r.wf(),
    {
        let node = binary_leaf(column, op, value);
        self.push_where(true, node)
    }

    /// Appends an AND-joined equality test.
    pub fn equals(self, column: &str, value: Value) -> (r: Self)
        ensures
            r == (QueryBuilder { where_entries: r.where_entries, ..self }),
            r.where_entries@.len() == self.where_entries@.len() + 1,
            r.where_entries@ == self.where_entries@.push(r.where_entries@.last()),
            is_leaf_entry(r.where_entries@.last(), false, column@, Op::Eq, seq![value@]),
            self.wf() ==> r.wf(),
    {
        self.filter(column, Op::Eq, value)
    }

    /// Appends an AND-joined negated leaf.
    pub fn not_filter(self, column: &str, op: Op, value: Value) -> (r: Self)
        requires
            is_binary_op(op),
        ensures
            r == (QueryBuilder { where_entries: r.where_entries, ..self }),
            r.where_entries@.len() == self.where_entries@.len() + 1,
            r.where_entries@ == self.where_entries@.push(r.where_entries@.last()),
            is_not_leaf_entry(r.where_entries@.last(), false, column@, op, seq![value@]),
            self.wf() ==> r.wf(),
    {
        let node = FilterNode::Not(Box::new(binary_leaf(column, op, value)));
        self.push_where(false, node)
    }

    /// Appends an OR-joined negated leaf.
    pub fn or_not_filter(self, column: &str, op: Op, value: Value) -> (r: Self)
        requires
            is_binary_op(op),
        ensures
            r == (QueryBuilder { where_entries: r.where_entries, ..self }),
            r.where_entries@.len() == self.where_entries@.len() + 1,
            r.where_entries@ == self.where_entries@.push(r.where_entries@.last()),
            is_not_leaf_entry(r.where_entries@.last(), true, column@, op, seq![value@]),
            self.wf() ==> r.wf(),
    {
        let node = FilterNode::Not(Box::new(binary_leaf(column, op, value)));
        self.push_where(true, node)
    }

    /// Appends an AND-joined IS NULL test.
    pub fn is_null(self, column: &str) -> (r: Self)
        ensures
            r == (QueryBuilder { where_entries: r.where_entries, ..self }),
            r.where_entries@.len() == self.where_entries@.len() + 1,
            r.where_entries@ == self.where_entries@.push(r.where_entries@.last()),
            is_leaf_entry(
                r.where_entries@.last(),
                false,
                column@,
                Op::IsNull,
                Seq::<ValueModel>::empty(),
            ),
            self.wf() ==> r.wf(),
    {
        let values: Vec<Value> = Vec::new();
        proof {
            assert(values.deep_view() =~= Seq::<ValueModel>::empty());
        }
        let node = FilterNode::Leaf { column: String::from_str(column), op: Op::IsNull, values };
        self.push_where(false, node)
    }

    /// Appends an AND-joined BETWEEN test over an inclusive range.
    pub fn between(self, column: &str, lo: Value, hi: Value) -> (r: Self)
        ensures
            r == (QueryBuilder { where_entries: r.where_entries, ..self }),
            r.where_entries@.len() == self.where_entries@.len() + 1,
            r.where_entries@ == self.where_entries@.push(r.where_entries@.last()),
            is_leaf_entry(r.where_entries@.last(), false, column@, Op::Between, seq![lo@, hi@]),
            self.wf() ==> r.wf(),
    {
        let node = between_leaf(column, lo, hi);
        self.push_where(false, node)
    }

    /// Appends an OR-joined BETWEEN test over an inclusive range.
    pub fn or_between(self, column: &str, lo: Value, hi: Value) -> (r: Self)
        ensures
            r == (QueryBuilder { where_entries: r.where_entries, ..self }),
            r.where_entries@.len() == self.where_entries@.len() + 1,
            r.where_entries@ == self.where_entries@.push(r.where_entries@.last()),
            is_leaf_entry(r.where_entries@.last(), true, column@, Op::Between, seq![lo@, hi@]),
            self.wf() ==> r.wf(),
    {
        let node = between_leaf(column, lo, hi);
        self.push_where(true, node)
    }

    /// Appends an AND-joined IN test over the given values.
    pub fn in_list(self, column: &str, values: Vec<Value>) -> (r: Self)
        ensures
            r == (QueryBuilder { where_entries: r.where_entries, ..self }),
            r.where_entries@.len() == self.where_entries@.len() + 1,
            r.where_entries@ == self.where_entries@.push(r.where_entries@.last()),
            is_leaf_entry(r.where_entries@.last(), false, column@, Op::In, values.deep_view()),
            self.wf() ==> r.wf(),
    {
        let node = FilterNode::Leaf { column: String::from_str(column), op: Op::In, values };
        self.push_where(false, node)
    }

    /// Appends an OR-joined IN test over the given values.
    pub fn or_in_list(self, column: &str, values: Vec<Value>) -> (r: Self)
        ensures
            r == (QueryBuilder { where_entries: r.where_entries, ..self }),
            r.where_entries@.len() == self.where_entries@.len() + 1,
            r.where_entries@ == self.where_entries@.push(r.where_entries@.last()),
            is_leaf_entry(r.where_entries@.last(), true, column@, Op::In, values.deep_view()),
            self.wf() ==> r.wf(),
    {
        let node = FilterNode::Leaf { column: String::from_str(column), op: Op::In, values };
        self.push_where(true, node)
    }

    /// Appends AND-joined raw predicate text with one bound value.
    pub fn where_raw(self, text: &str, value: Value) -> (r: Self)
        ensures
            r == (QueryBuilder { where_entries: r.where_entries, ..self }),
            r.where_entries@.len() == self.where_entries@.len() + 1,
            r.where_entries@ == self.where_entries@.push(r.where_entries@.last()),
            is_raw_entry(r.where_entries@.last(), false, text@, seq![value@]),
            self.wf() ==> r.wf(),
    {
        let node = raw_node(text, value);
        self.push_where(false, node)
    }

    /// Appends OR-joined raw predicate text with one bound value.
    pub fn or_where_raw(self, text: &str, value: Value) -> (r: Self)
        ensures
            r == (QueryBuilder { where_entries: r.where_entries, ..self }),
            r.where_entries@.len() == self.where_entries@.len() + 1,
            r.where_entries@ == self.where_entries@.push(r.where_entries@.last()),
            is_raw_entry(r.where_entries@.last(), true, text@, seq![value@]),
            self.wf() ==> r.wf(),
    {
        let node = raw_node(text, value);
        self.push_where(true, node)
    }

    /// Appends an AND-joined HAVING leaf.
    pub fn having(self, column: &str, op: Op, value: Value) -> (r: Self)
        requires
            is_binary_op(op),
        ensures
            r == (QueryBuilder { having_entries: r.having_entries, ..self }),
            r.having_entries@.len() == self.having_entries@.len() + 1,
            r.having_entries@ == self.having_entries@.push(r.having_entries@.last()),
            is_leaf_entry(r.having_entries@.last(), false, column@, op, seq![value@]),
            self.wf() ==> r.wf(),
    {
        let node = binary_leaf(column, op, value);
        self.push_having(false, node)
    }

    /// Joins a nested filter scope's accumulated predicates as one
    /// OR-joined parenthesized branch; an empty scope changes nothing.
    pub fn or_group(self, group: FilterGroup) -> (r: Self)
        requires
            entries_ok(group.entries@),
        ensures
            group.entries@.len() == 0 ==> r == self,
            group.entries@.len() > 0 ==> {
                &&& r == (QueryBuilder { where_entries: r.where_entries, ..self })
                &&& r.where_entries@.len() == self.where_entries@.len() + 1
                &&& r.where_entries@ == self.where_entries@.push(r.where_entries@.last())
                &&& r.where_entries@.last().or == true
                &&& node_matches_fold(r.where_entries@.last().node, group.entries@)
            },
            self.wf() ==> r.wf(),
    {
        if group.entries.len() == 0 {
            self
        } else {
            let node = group.to_node();
            self.push_where(true, node)
        }
    }
}

/// The connective rendered before an OR- or AND-joined entry.
pub open spec fn connector(or: bool) -> Seq<char> {
    if or {
        " OR "@
    } else {
        " AND "@
    }
}

/// The bind values of a list of entries, concatenated in order.
pub open spec fn entries_args(s: Seq<WhereEntry>) -> Seq<ValueModel>
    decreases s,
{
    if s.len() == 0 {
        Seq::empty()
    } else {
        node_args(s[0].node) + entries_args(s.drop_first())
    }
}

/// The rendered text of the entries after the first, each prefixed by its
/// own connective, threading the placeholder numbering left to right.
pub open spec fn spec_entries_tail(
    s: Seq<WhereEntry>,
    driver: Drivers,
    qual: Option<Seq<char>>,
    start: nat,
) -> Seq<char>
    decreases s,
{
    if s.len() == 0 {
        Seq::empty()
    } else {
        connector(s[0].or) + crate::filter::spec_render_node(s[0].node, driver, qual, start)
            + spec_entries_tail(s.drop_first(), driver, qual, start + node_args(s[0].node).len())
    }
}

/// The rendered text of a list of entries: the first bare, the rest each
/// prefixed by its connective.
pub open spec fn spec_entries_sql(
    s: Seq<WhereEntry>,
    driver: Drivers,
    qual: Option<Seq<char>>,
    start: nat,
) -> Seq<char> {
    if s.len() == 0 {
        Seq::empty()
    } else {
        crate::filter::spec_render_node(s[0].node, driver, qual, start) + spec_entries_tail(
            s.drop_first(),
            driver,
            qual,
            start + node_args(s[0].node).len(),
        )
    }
}

/// Appending one more entry appends its bind values.
pub proof fn lemma_entries_args_snoc(s: Seq<WhereEntry>, x: WhereEntry)
    ensures
        entries_args(s.push(x)) == entries_args(s) + node_args(x.node),
    decreases s,
{
    let sx = s.push(x);
    if s.len() == 0 {
        assert(sx[0] == x);
        assert(sx.drop_first() =~= Seq::<WhereEntry>::empty());
        assert(entries_args(Seq::<WhereEntry>::empty()) =~= Seq::<ValueModel>::empty());
        assert(entries_args(sx) =~= node_args(x.node));
        assert(entries_args(s) + node_args(x.node) =~= node_args(x.node));
    } else {
        assert(sx[0] == s[0]);
        assert(sx.drop_first() =~= s.drop_first().push(x));
        lemma_entries_args_snoc(s.drop_first(), x);
        assert(node_args(s[0].node) + (entries_args(s.drop_first()) + node_args(x.node)) =~= (
        node_args(s[0].node) + entries_args(s.drop_first())) + node_args(x.node));
    }
}

/// Appending one more entry extends the tail rendering on the right.
pub proof fn lemma_entries_tail_snoc(
    s: Seq<WhereEntry>,
    x: WhereEntry,
    driver: Drivers,
    qual: Option<Seq<char>>,
    start: nat,
)
    ensures
        spec_entries_tail(s.push(x), driver, qual, start) == spec_entries_tail(
            s,
            driver,
            qual,
            start,
        ) + connector(x.or) + crate::filter::spec_render_node(
            x.node,
            driver,
            qual,
            start + entries_args(s).len(),
        ),
    decreases s,
{
    let sx = s.push(x);
    if s.len() == 0 {
        assert(sx[0] == x);
        assert(sx.drop_first() =~= Seq::<WhereEntry>::empty());
        assert(spec_entries_tail(sx.drop_first(), driver, qual, start + node_args(x.node).len())
            =~= Seq::<char>::empty());
        assert(entries_args(s) =~= Seq::<ValueModel>::empty());
        assert((connector(x.or) + crate::filter::spec_render_node(x.node, driver, qual, start))
            + Seq::<char>::empty() =~= Seq::<char>::empty() + connector(x.or)
            + crate::filter::spec_render_node(x.node, driver, qual, start));
    } else {
        assert(sx[0] == s[0]);
        assert(sx.drop_first() =~= s.drop_first().push(x));
        lemma_entries_tail_snoc(
            s.drop_first(),
            x,
            driver,
            qual,
            start + node_args(s[0].node).len(),
        );
        assert(entries_args(s) =~= node_args(s[0].node) + entries_args(s.drop_first()));
        let head = connector(s[0].or) + crate::filter::spec_render_node(
            s[0].node,
            driver,
            qual,
            start,
        );
        let mid = spec_entries_tail(
            s.drop_first(),
            driver,
            qual,
            start + node_args(s[0].node).len(),
        );
        let tail = connector(x.or) + crate::filter::spec_render_node(
            x.node,
            driver,
            qual,
            start + entries_args(s).len(),
        );
        assert(head + (mid + tail) =~= (head + mid) + tail);
        assert((head + mid) + tail =~= spec_entries_tail(s, driver, qual, start) + connector(x.or)
            + crate::filter::spec_render_node(x.node, driver, qual, start + entries_args(
            s,
        ).len()));
    }
}

/// Appending one more entry extends the list rendering on the right,
/// numbered after all earlier bind values.
pub proof fn lemma_entries_sql_snoc(
    s: Seq<WhereEntry>,
    x: WhereEntry,
    driver: Drivers,
    qual: Option<Seq<char>>,
    start: nat,
)
    requires
        s.len() >= 1,
    ensures
        spec_entries_sql(s.push(x), driver, qual, start) == spec_entries_sql(
            s,
            driver,
            qual,
            start,
        ) + connector(x.or) + crate::filter::spec_render_node(
            x.node,
            driver,
            qual,
            start + entries_args(s).len(),
        ),
{
    let sx = s.push(x);
    assert(sx[0] == s[0]);
    assert(sx.drop_first() =~= s.drop_first().push(x));
    lemma_entries_tail_snoc(s.drop_first(), x, driver, qual, start + node_args(s[0].node).len());
    assert(entries_args(s) =~= node_args(s[0].node) + entries_args(s.drop_first()));
    let head = crate::filter::spec_render_node(s[0].node, driver, qual, start);
    let mid = spec_entries_tail(s.drop_first(), driver, qual, start + node_args(s[0].node).len());
    let tail = connector(x.or) + crate::filter::spec_render_node(
        x.node,
        driver,
        qual,
        start + entries_args(s).len(),
    );
    assert(head + (mid + tail) =~= (head + mid) + tail);
}

/// Renders a list of entries, appending their bind values to `args` in the
/// same left-to-right order.
pub(crate) fn render_entries(entries: &Vec<WhereEntry>, driver: Drivers, qual: &Option<String>, args: &mut Vec<
    Value,
>) -> (r: String)
    requires
        entries_ok(entries@),
    ensures
        final(args).deep_view() == old(args).deep_view() + entries_args(entries@),
        r@ == spec_entries_sql(
            entries@,
            driver,
            crate::filter::qual_view(*qual),
            old(args).deep_view().len() + 1,
        ),
{
    let ghost start: nat = args.deep_view().len() + 1;
    let ghost old_deep: Seq<ValueModel> = args.deep_view();
    let mut acc = String::new();
    let mut i: usize = 0;
    proof {
        assert(entries_args(entries@.take(0)) =~= Seq::<ValueModel>::empty()) by {
            assert(entries@.take(0) =~= Seq::<WhereEntry>::empty());
        }
        assert(old_deep + Seq::<ValueModel>::empty() =~= old_deep);
    }
    while i < entries.len()
        invariant
            0 <= i <= entries@.len(),
            args.deep_view() =~= old_deep + entries_args(entries@.take(i as int)),
            acc@ == spec_entries_sql(
                entries@.take(i as int),
                driver,
                crate::filter::qual_view(*qual),
                start,
            ),
            start == old_deep.len() + 1,
            entries_ok(entries@),
        decreases entries@.len() - i,
    {
        let ghost prefix = entries@.take(i as int);
        let e = &entries[i];
        proof {
            assert(arity_ok(entries@[i as int].node));
        }
        if i > 0 {
            if e.or {
                acc = acc.concat(" OR ");
            } else {
                acc = acc.concat(" AND ");
            }
        }
        let piece = crate::filter::render_node(&e.node, driver, qual, args);
        acc = acc.concat(piece.as_str());
        proof {
            assert(prefix.push(entries@[i as int]) =~= entries@.take(i + 1));
            lemma_entries_args_snoc(prefix, entries@[i as int]);
            if i > 0 {
                lemma_entries_sql_snoc(
                    prefix,
                    entries@[i as int],
                    driver,
                    crate::filter::qual_view(*qual),
                    start,
                );
            } else {
                assert(entries@.take(1)[0] == entries@[0]);
                assert(entries@.take(1).drop_first() =~= Seq::<WhereEntry>::empty());
                assert(spec_entries_tail(
                    Seq::<WhereEntry>::empty(),
                    driver,
                    crate::filter::qual_view(*qual),
                    start + node_args(entries@[0].node).len(),
                ) =~= Seq::<char>::empty());
                assert(Seq::<char>::empty() + crate::filter::spec_render_node(
                    entries@[0].node,
                    driver,
                    crate::filter::qual_view(*qual),
                    start,
                ) =~= crate::filter::spec_render_node(
                    entries@[0].node,
                    driver,
                    crate::filter::qual_view(*qual),
                    start,
                ));
            }
        }
        i = i + 1;
    }
    proof {
        assert(entries@.take(entries@.len() as int) =~= entries@);
    }
    acc
}

/// Well-formedness of every entry's tree against the dialect's marker.
pub open spec fn entries_wf(s: Seq<WhereEntry>, m: char) -> bool
    decreases s,
{
    if s.len() == 0 {
        true
    } else {
        crate::filter::wf_node(s[0].node, m) && entries_wf(s.drop_first(), m)
    }
}

/// A connective holds no placeholder marker.
proof fn lemma_connector_clean(or: bool, m: char)
    requires
        m == '$' || m == '?',
    ensures
        crate::text::count_char(connector(or), m) == 0,
{
    reveal_strlit(" OR ");
    reveal_strlit(" AND ");
    crate::text::lemma_count_char_absent(" OR "@, m);
    crate::text::lemma_count_char_absent(" AND "@, m);
}

/// The placeholder/bind-order law over the entries after the first.
proof fn lemma_entries_tail_placeholders(
    s: Seq<WhereEntry>,
    driver: Drivers,
    qual: Option<Seq<char>>,
    start: nat,
)
    requires
        entries_wf(s, crate::dialect::marker(driver)),
        crate::filter::wf_qual(qual, crate::dialect::marker(driver)),
    ensures
        crate::text::count_char(
            spec_entries_tail(s, driver, qual, start),
            crate::dialect::marker(driver),
        ) == entries_args(s).len(),
    decreases s,
{
    let m = crate::dialect::marker(driver);
    if s.len() == 0 {
    } else {
        lemma_connector_clean(s[0].or, m);
        crate::filter::lemma_placeholders_match_binds(s[0].node, driver, qual, start);
        lemma_entries_tail_placeholders(
            s.drop_first(),
            driver,
            qual,
            start + node_args(s[0].node).len(),
        );
        crate::text::lemma_count_char_concat(
            connector(s[0].or),
            crate::filter::spec_render_node(s[0].node, driver, qual, start),
            m,
        );
        crate::text::lemma_count_char_concat(
            connector(s[0].or) + crate::filter::spec_render_node(s[0].node, driver, qual, start),
            spec_entries_tail(s.drop_first(), driver, qual, start + node_args(s[0].node).len()),
            m,
        );
    }
}

/// The placeholder/bind-order law over a whole top-level entry list: a
/// well-formed WHERE or HAVING state renders exactly one placeholder
/// marker per bound value, in the same left-to-right order in which the
/// values are collected.
pub proof fn lemma_entries_placeholders_match_binds(
    s: Seq<WhereEntry>,
    driver: Drivers,
    qual: Option<Seq<char>>,
    start: nat,
)
    requires
        entries_wf(s, crate::dialect::marker(driver)),
        crate::filter::wf_qual(qual, crate::dialect::marker(driver)),
    ensures
        crate::text::count_char(
            spec_entries_sql(s, driver, qual, start),
            crate::dialect::marker(driver),
        ) == entries_args(s).len(),
{
    let m = crate::dialect::marker(driver);
    if s.len() == 0 {
    } else {
        crate::filter::lemma_placeholders_match_binds(s[0].node, driver, qual, start);
        lemma_entries_tail_placeholders(
            s.drop_first(),
            driver,
            qual,
            start + node_args(s[0].node).len(),
        );
        crate::text::lemma_count_char_concat(
            crate::filter::spec_render_node(s[0].node, driver, qual, start),
            spec_entries_tail(s.drop_first(), driver, qual, start + node_args(s[0].node).len()),
            m,
        );
    }
}

/// The fold a filter scope becomes binds exactly the scope's values, in
/// entry order: grouping never reorders or drops a bound value.
pub proof fn lemma_fold_preserves_args(r: FilterNode, s: Seq<WhereEntry>)
    requires
        node_matches_fold(r, s),
    ensures
        node_args(r) == entries_args(s),
    decreases s.len(),
{
    if s.len() == 1 {
        assert(entries_args(s) =~= node_args(s[0].node) + entries_args(s.drop_first()));
        assert(entries_args(s.drop_first()) =~= Seq::<crate::value::ValueModel>::empty());
        assert(node_args(r) =~= entries_args(s));
    } else {
        match r {
            FilterNode::Or(cs) => {
                lemma_fold_preserves_args(cs@[0], s.drop_last());
                lemma_fold_args_pair(cs@, s);
            },
            FilterNode::And(cs) => {
                lemma_fold_preserves_args(cs@[0], s.drop_last());
                lemma_fold_args_pair(cs@, s);
            },
            _ => {},
        }
    }
}

/// The argument bookkeeping of one fold step.
proof fn lemma_fold_args_pair(cs: Seq<FilterNode>, s: Seq<WhereEntry>)
    requires
        s.len() >= 2,
        cs.len() == 2,
        crate::filter::node_args(cs[0]) == entries_args(s.drop_last()),
        cs[1] == s.last().node,
    ensures
        crate::filter::list_args(cs) == entries_args(s),
{
    assert(crate::filter::list_args(cs) =~= crate::filter::node_args(cs[0])
        + crate::filter::list_args(cs.drop_first()));
    assert(cs.drop_first() =~= seq![cs[1]]);
    assert(crate::filter::list_args(seq![cs[1]]) =~= crate::filter::node_args(cs[1])
        + crate::filter::list_args(seq![cs[1]].drop_first()));
    assert(seq![cs[1]].drop_first() =~= Seq::<FilterNode>::empty());
    assert(crate::filter::list_args(Seq::<FilterNode>::empty()) =~= Seq::<
        crate::value::ValueModel,
    >::empty());
    lemma_entries_args_snoc(s.drop_last(), s.last());
    assert(s.drop_last().push(s.last()) =~= s);
    assert(crate::filter::node_args(cs[0]) + (crate::filter::node_args(cs[1]) + Seq::<
        crate::value::ValueModel,
    >::empty()) =~= entries_args(s.drop_last()) + crate::filter::node_args(s.last().node));
}

/// The rendered text of one join clause.
pub open spec fn spec_join_clause(j: Join) -> Seq<char> {
    (match j.kind {
        JoinKind::Inner => " INNER JOIN "@,
        JoinKind::Left => " LEFT JOIN "@,
    }) + j.target@ + " ON "@ + j.on@
}

/// The rendered text of all join clauses, in call order.
pub open spec fn spec_joins_sql(s: Seq<Join>) -> Seq<char>
    decreases s,
{
    if s.len() == 0 {
        Seq::empty()
    } else {
        spec_join_clause(s[0]) + spec_joins_sql(s.drop_first())
    }
}

/// The bind values of all join ON conditions, in call order.
pub open spec fn spec_joins_args(s: Seq<Join>) -> Seq<ValueModel>
    decreases s,
{
    if s.len() == 0 {
        Seq::empty()
    } else {
        s[0].values.deep_view() + spec_joins_args(s.drop_first())
    }
}

/// Appending one more join extends text and bind values on the right.
pub proof fn lemma_joins_snoc(s: Seq<Join>, x: Join)
    ensures
        spec_joins_sql(s.push(x)) == spec_joins_sql(s) + spec_join_clause(x),
        spec_joins_args(s.push(x)) == spec_joins_args(s) + x.values.deep_view(),
    decreases s,
{
    let sx = s.push(x);
    if s.len() == 0 {
        assert(sx[0] == x);
        assert(sx.drop_first() =~= Seq::<Join>::empty());
        assert(spec_joins_sql(Seq::<Join>::empty()) =~= Seq::<char>::empty());
        assert(spec_joins_args(Seq::<Join>::empty()) =~= Seq::<ValueModel>::empty());
        assert(spec_joins_sql(sx) =~= spec_join_clause(x));
        assert(spec_joins_sql(s) + spec_join_clause(x) =~= spec_join_clause(x));
        assert(spec_joins_args(sx) =~= x.values.deep_view());
        assert(spec_joins_args(s) + x.values.deep_view() =~= x.values.deep_view());
    } else {
        assert(sx[0] == s[0]);
        assert(sx.drop_first() =~= s.drop_first().push(x));
        lemma_joins_snoc(s.drop_first(), x);
        assert(spec_join_clause(s[0]) + (spec_joins_sql(s.drop_first()) + spec_join_clause(x)) =~= (
        spec_join_clause(s[0]) + spec_joins_sql(s.drop_first())) + spec_join_clause(x));
        assert(s[0].values.deep_view() + (spec_joins_args(s.drop_first()) + x.values.deep_view())
            =~= (s[0].values.deep_view() + spec_joins_args(s.drop_first())) + x.values.deep_view());
    }
}

/// Renders the join clauses, appending their bind values to `args`.
fn render_joins(joins: &Vec<Join>, args: &mut Vec<Value>) -> (r: String)
    ensures
        final(args).deep_view() == old(args).deep_view() + spec_joins_args(joins@),
        r@ == spec_joins_sql(joins@),
{
    let ghost old_deep: Seq<ValueModel> = args.deep_view();
    let mut acc = String::new();
    let mut i: usize = 0;
    proof {
        assert(joins@.take(0) =~= Seq::<Join>::empty());
        assert(spec_joins_args(joins@.take(0)) =~= Seq::<ValueModel>::empty());
        assert(old_deep + Seq::<ValueModel>::empty() =~= old_deep);
    }
    while i < joins.len()
        invariant
            0 <= i <= joins@.len(),
            args.deep_view() =~= old_deep + spec_joins_args(joins@.take(i as int)),
            acc@ == spec_joins_sql(joins@.take(i as int)),
        decreases joins@.len() - i,
    {
        let ghost prefix = joins@.take(i as int);
        let j = &joins[i];
        let kw: &'static str = match j.kind {
            JoinKind::Inner => " INNER JOIN ",
            JoinKind::Left => " LEFT JOIN ",
        };
        acc = acc.concat(kw).concat(j.target.as_str()).concat(" ON ").concat(j.on.as_str());
        let ghost mid_deep = args.deep_view();
        let mut k: usize = 0;
        while k < j.values.len()
            invariant
                0 <= k <= j.values@.len(),
                args.deep_view() =~= mid_deep + j.values.deep_view().take(k as int),
                j == &joins[i as int],
                0 <= i < joins@.len(),
            decreases j.values@.len() - k,
        {
            crate::value::push_value(args, &j.values[k]);
            proof {
                assert(j.values.deep_view()[k as int] == j.values@[k as int]@);
                assert(args.deep_view() =~= mid_deep + j.values.deep_view().take(k as int).push(
                    j.values.deep_view()[k as int],
                ));
                assert(j.values.deep_view().take(k as int).push(j.values.deep_view()[k as int])
                    =~= j.values.deep_view().take(k + 1));
            }
            k = k + 1;
        }
        proof {
            assert(j.values.deep_view().take(j.values@.len() as int) =~= j.values.deep_view());
            assert(prefix.push(joins@[i as int]) =~= joins@.take(i + 1));
            lemma_joins_snoc(prefix, joins@[i as int]);
            assert((old_deep + spec_joins_args(prefix)) + joins@[i as int].values.deep_view() =~=
                old_deep + (spec_joins_args(prefix) + joins@[i as int].values.deep_view()));
        }
        i = i + 1;
    }
    proof {
        assert(joins@.take(joins@.len() as int) =~= joins@);
    }
    acc
}

/// The reference by which the automatic projection qualifies columns: the
/// alias when one is set, the quoted table name otherwise.
pub open spec fn spec_qref(table: Seq<char>, alias: Option<Seq<char>>) -> Seq<char> {
    match alias {
        Some(a) => a,
        None => seq!['"'] + table + seq!['"'],
    }
}

/// One automatic projection item: the qualified column, aliased to its
/// `table__column` lookup name.
pub open spec fn spec_default_item(
    table: Seq<char>,
    alias: Option<Seq<char>>,
    col: Seq<char>,
) -> Seq<char> {
    spec_qref(table, alias) + ".\""@ + col + "\" AS \""@ + table + "__"@ + col + "\""@
}

/// The automatic projection items: one per active column not omitted.
pub open spec fn spec_default_items(
    actives: Seq<Seq<char>>,
    omitted: Seq<Seq<char>>,
    table: Seq<char>,
    alias: Option<Seq<char>>,
) -> Seq<Seq<char>>
    decreases actives.len(),
{
    if actives.len() == 0 {
        Seq::empty()
    } else {
        let rest = spec_default_items(actives.drop_first(), omitted, table, alias);
        if omitted.contains(actives[0]) {
            rest
        } else {
            seq![spec_default_item(table, alias, actives[0])] + rest
        }
    }
}

/// Appending one more active column extends the items on the right.
pub proof fn lemma_default_items_snoc(
    actives: Seq<Seq<char>>,
    x: Seq<char>,
    omitted: Seq<Seq<char>>,
    table: Seq<char>,
    alias: Option<Seq<char>>,
)
    ensures
        spec_default_items(actives.push(x), omitted, table, alias) == spec_default_items(
            actives,
            omitted,
            table,
            alias,
        ) + if omitted.contains(x) {
            Seq::<Seq<char>>::empty()
        } else {
            seq![spec_default_item(table, alias, x)]
        },
    decreases actives.len(),
{
    let sx = actives.push(x);
    let tail = if omitted.contains(x) {
        Seq::<Seq<char>>::empty()
    } else {
        seq![spec_default_item(table, alias, x)]
    };
    if actives.len() == 0 {
        assert(sx[0] == x);
        assert(sx.drop_first() =~= Seq::<Seq<char>>::empty());
        assert(spec_default_items(Seq::<Seq<char>>::empty(), omitted, table, alias) =~= Seq::<
            Seq<char>,
        >::empty());
        assert(spec_default_items(sx, omitted, table, alias) =~= tail);
        assert(spec_default_items(actives, omitted, table, alias) + tail =~= tail);
    } else {
        assert(sx[0] == actives[0]);
        assert(sx.drop_first() =~= actives.drop_first().push(x));
        lemma_default_items_snoc(actives.drop_first(), x, omitted, table, alias);
        if omitted.contains(actives[0]) {
        } else {
            assert(seq![spec_default_item(table, alias, actives[0])] + (spec_default_items(
                actives.drop_first(),
                omitted,
                table,
                alias,
            ) + tail) =~= (seq![spec_default_item(table, alias, actives[0])] + spec_default_items(
                actives.drop_first(),
                omitted,
                table,
                alias,
            )) + tail);
        }
    }
}

impl QueryBuilder {
    /// The projection text: the raw fragments when any are present, else
    /// every active, non-omitted column qualified and aliased to its
    /// lookup name.
    pub open spec fn spec_projection(self) -> Seq<char> {
        if self.select_columns@.len() > 0 {
            crate::text::join_texts(self.select_columns.deep_view(), ", "@)
        } else {
            crate::text::join_texts(
                spec_default_items(
                    self.active_columns.deep_view(),
                    self.omitted.deep_view(),
                    self.table@,
                    crate::filter::qual_view(self.alias),
                ),
                ", "@,
            )
        }
    }

    /// The FROM clause, with the alias when one is set.
    pub open spec fn spec_from(self) -> Seq<char> {
        " FROM \""@ + self.table@ + "\""@ + match self.alias {
            Some(a) => seq![' '] + a@,
            None => Seq::<char>::empty(),
        }
    }

    /// The WHERE clause, or nothing when no filter was set.
    pub open spec fn spec_where(self, start: nat) -> Seq<char> {
        if self.where_entries@.len() == 0 {
            Seq::empty()
        } else {
            " WHERE "@ + spec_entries_sql(
                self.where_entries@,
                self.driver,
                crate::filter::qual_view(self.alias),
                start,
            )
        }
    }

    /// The GROUP BY clause, or nothing when no grouping was set.
    pub open spec fn spec_group_by(self) -> Seq<char> {
        if self.group_by@.len() == 0 {
            Seq::empty()
        } else {
            " GROUP BY "@ + crate::text::join_texts(self.group_by.deep_view(), ", "@)
        }
    }

    /// The HAVING clause, or nothing when no having filter was set.
    pub open spec fn spec_having(self, start: nat) -> Seq<char> {
        if self.having_entries@.len() == 0 {
            Seq::empty()
        } else {
            " HAVING "@ + spec_entries_sql(
                self.having_entries@,
                self.driver,
                crate::filter::qual_view(self.alias),
                start,
            )
        }
    }

    /// The ORDER BY clause, or nothing when no ordering was set.
    pub open spec fn spec_order(self) -> Seq<char> {
        if self.order_clauses@.len() == 0 {
            Seq::empty()
        } else {
            " ORDER BY "@ + crate::text::join_texts(self.order_clauses.deep_view(), ", "@)
        }
    }

    /// The LIMIT clause, or nothing when no limit was set.
    pub open spec fn spec_limit_clause(self) -> Seq<char> {
        match self.limit {
            Some(l) => " LIMIT "@ + crate::text::dec_of(l as nat),
            None => Seq::<char>::empty(),
        }
    }

    /// The OFFSET clause, or nothing when no offset was set.
    pub open spec fn spec_offset_clause(self) -> Seq<char> {
        match self.offset {
            Some(o) => " OFFSET "@ + crate::text::dec_of(o as nat),
            None => Seq::<char>::empty(),
        }
    }

    /// The positional bind values of the whole query: join values first,
    /// then the WHERE tree's, then the HAVING tree's, each walked left to
    /// right.
    pub open spec fn spec_select_args(self) -> Seq<ValueModel> {
        spec_joins_args(self.joins@) + entries_args(self.where_entries@) + entries_args(
            self.having_entries@,
        )
    }

    /// The rendered SELECT statement: projection, FROM with optional
    /// alias, joins in call order, WHERE, GROUP BY, HAVING (its
    /// placeholders numbered after WHERE's), ORDER BY, LIMIT and OFFSET.
    pub open spec fn spec_select_sql(self) -> Seq<char> {
        "SELECT "@ + self.spec_projection() + self.spec_from() + spec_joins_sql(self.joins@)
            + self.spec_where(1 + spec_joins_args(self.joins@).len()) + self.spec_group_by()
            + self.spec_having(
            1 + spec_joins_args(self.joins@).len() + entries_args(self.where_entries@).len(),
        ) + self.spec_order() + self.spec_limit_clause() + self.spec_offset_clause()
    }

    /// The count variant: the projection is one count aggregate and
    /// ORDER/LIMIT/OFFSET are dropped, while FROM, joins, WHERE, GROUP BY
    /// and HAVING are kept, with identical bind values.
    pub open spec fn spec_count_sql(self) -> Seq<char> {
        "SELECT COUNT(*)"@ + self.spec_from() + spec_joins_sql(self.joins@) + self.spec_where(
            1 + spec_joins_args(self.joins@).len(),
        ) + self.spec_group_by() + self.spec_having(
            1 + spec_joins_args(self.joins@).len() + entries_args(self.where_entries@).len(),
        )
    }

    /// The automatic projection items as strings.
    fn default_items(&self) -> (r: Vec<String>)
        ensures
            r.deep_view() == spec_default_items(
                self.active_columns.deep_view(),
                self.omitted.deep_view(),
                self.table@,
                crate::filter::qual_view(self.alias),
            ),
    {
        let qref: String = match &self.alias {
            Some(a) => a.clone(),
            None => String::from_str("\"").concat(self.table.as_str()).concat("\""),
        };
        proof {
            reveal_strlit("\"");
            assert("\""@ =~= seq!['"']);
            assert(qref@ == spec_qref(self.table@, crate::filter::qual_view(self.alias)));
        }
        let mut items: Vec<String> = Vec::new();
        let mut i: usize = 0;
        let ghost actives = self.active_columns.deep_view();
        let ghost omitted = self.omitted.deep_view();
        let ghost alias = crate::filter::qual_view(self.alias);
        proof {
            assert(actives.take(0) =~= Seq::<Seq<char>>::empty());
            assert(items.deep_view() =~= spec_default_items(actives.take(0), omitted, self.table@, alias));
        }
        while i < self.active_columns.len()
            invariant
                0 <= i <= actives.len(),
                actives == self.active_columns.deep_view(),
                omitted == self.omitted.deep_view(),
                alias == crate::filter::qual_view(self.alias),
                qref@ == spec_qref(self.table@, alias),
                items.deep_view() =~= spec_default_items(
                    actives.take(i as int),
                    omitted,
                    self.table@,
                    alias,
                ),
            decreases actives.len() - i,
        {
            let ghost pre_items = items.deep_view();
            let col = &self.active_columns[i];
            proof {
                assert(actives[i as int] == self.active_columns@[i as int]@);
            }
            if !crate::text::vec_contains_string(&self.omitted, col) {
                let item = qref.clone().concat(".\"").concat(col.as_str()).concat(
                    "\" AS \"",
                ).concat(self.table.as_str()).concat("__").concat(col.as_str()).concat("\"");
                proof {
                    assert(item@ == spec_default_item(self.table@, alias, actives[i as int]));
                }
                let ghost pre = items@;
                items.push(item);
                proof {
                    assert forall|j: int| 0 <= j < items@.len() implies items.deep_view()[j]
                        == pre_items.push(spec_default_item(self.table@, alias, actives[i as int]))[j] by {
                        assert(items.deep_view()[j] == items@[j]@);
                        if j < pre.len() {
                            assert(items@[j] == pre[j]);
                            assert(pre_items[j] == pre[j]@);
                        }
                    }
                    assert(items.deep_view() =~= pre_items.push(
                        spec_default_item(self.table@, alias, actives[i as int]),
                    ));
                }
            }
            proof {
                lemma_default_items_snoc(
                    actives.take(i as int),
                    actives[i as int],
                    omitted,
                    self.table@,
                    alias,
                );
                assert(actives.take(i as int).push(actives[i as int]) =~= actives.take(i + 1));
                if omitted.contains(actives[i as int]) {
                    assert(pre_items + Seq::<Seq<char>>::empty() =~= pre_items);
                } else {
                    assert(pre_items + seq![spec_default_item(self.table@, alias, actives[i as int])]
                        =~= pre_items.push(spec_default_item(self.table@, alias, actives[i as int])));
                }
            }
            i = i + 1;
        }
        proof {
            assert(actives.take(actives.len() as int) =~= actives);
        }
        items
    }

    /// The projection text.
    fn render_projection(&self) -> (r: String)
        ensures
            r@ == self.spec_projection(),
    {
        if self.select_columns.len() > 0 {
            crate::text::join_strings(&self.select_columns, ", ")
        } else {
            let items = self.default_items();
            crate::text::join_strings(&items, ", ")
        }
    }

    /// The FROM clause text.
    fn render_from(&self) -> (r: String)
        ensures
            r@ == self.spec_from(),
    {
        let s = String::from_str(" FROM \"").concat(self.table.as_str()).concat("\"");
        match &self.alias {
            Some(a) => {
                let r = s.concat(" ").concat(a.as_str());
                proof {
                    reveal_strlit(" ");
                    assert(" "@ =~= seq![' ']);
                }
                r
            },
            None => {
                proof {
                    assert(s@ + Seq::<char>::empty() =~= s@);
                }
                s
            },
        }
    }

    /// Renders the whole SELECT statement and collects its positional
    /// bind values: join values first, then WHERE's, then HAVING's, in
    /// the same order the placeholders are numbered.
    pub fn build_query(&self) -> (r: (String, Vec<Value>))
        requires
            self.wf(),
        ensures
            r.0@ == self.spec_select_sql(),
            r.1.deep_view() == self.spec_select_args(),
    {
        let mut args: Vec<Value> = Vec::new();
        proof {
            assert(args.deep_view() =~= Seq::<ValueModel>::empty());
        }
        let proj = self.render_projection();
        let from = self.render_from();
        let joins = render_joins(&self.joins, &mut args);
        proof {
            assert(args.deep_view() =~= spec_joins_args(self.joins@));
        }
        let wsql = if self.where_entries.len() > 0 {
            let inner = render_entries(&self.where_entries, self.driver, &self.alias, &mut args);
            String::from_str(" WHERE ").concat(inner.as_str())
        } else {
            proof {
                assert(entries_args(self.where_entries@) =~= Seq::<ValueModel>::empty());
                assert(args.deep_view() + Seq::<ValueModel>::empty() =~= args.deep_view());
            }
            String::new()
        };
        proof {
            assert(args.deep_view() =~= spec_joins_args(self.joins@) + entries_args(
                self.where_entries@,
            ));
            assert(wsql@ == self.spec_where(1 + spec_joins_args(self.joins@).len()));
        }
        let gsql = if self.group_by.len() > 0 {
            let inner = crate::text::join_strings(&self.group_by, ", ");
            String::from_str(" GROUP BY ").concat(inner.as_str())
        } else {
            String::new()
        };
        let hsql = if self.having_entries.len() > 0 {
            let inner = render_entries(&self.having_entries, self.driver, &self.alias, &mut args);
            String::from_str(" HAVING ").concat(inner.as_str())
        } else {
            proof {
                assert(entries_args(self.having_entries@) =~= Seq::<ValueModel>::empty());
                assert(args.deep_view() + Seq::<ValueModel>::empty() =~= args.deep_view());
            }
            String::new()
        };
        proof {
            assert(args.deep_view() =~= self.spec_select_args());
            assert(hsql@ == self.spec_having(
                1 + spec_joins_args(self.joins@).len() + entries_args(
                    self.where_entries@,
                ).len(),
            ));
        }
        let osql = if self.order_clauses.len() > 0 {
            let inner = crate::text::join_strings(&self.order_clauses, ", ");
            String::from_str(" ORDER BY ").concat(inner.as_str())
        } else {
            String::new()
        };
        let lsql = match self.limit {
            Some(l) => {
                let n = crate::text::usize_to_string(l);
                String::from_str(" LIMIT ").concat(n.as_str())
            },
            None => String::new(),
        };
        let fsql = match self.offset {
            Some(o) => {
                let n = crate::text::usize_to_string(o);
                String::from_str(" OFFSET ").concat(n.as_str())
            },
            None => String::new(),
        };
        let sql = String::from_str("SELECT ").concat(proj.as_str()).concat(from.as_str()).concat(
            joins.as_str(),
        ).concat(wsql.as_str()).concat(gsql.as_str()).concat(hsql.as_str()).concat(
            osql.as_str(),
        ).concat(lsql.as_str()).concat(fsql.as_str());
        (sql, args)
    }

    /// Renders the SELECT statement without executing it.
    pub fn to_sql(&self) -> (r: String)
        requires
            self.wf(),
        ensures
            r@ == self.spec_select_sql(),
    {
        let (sql, _args) = self.build_query();
        sql
    }

    /// Renders the count variant of the same state and collects its bind
    /// values; they equal the SELECT statement's values, since both are
    /// derived by walking the same trees in the same order.
    pub fn build_count_query(&self) -> (r: (String, Vec<Value>))
        requires
            self.wf(),
        ensures
            r.0@ == self.spec_count_sql(),
            r.1.deep_view() == self.spec_select_args(),
    {
        let mut args: Vec<Value> = Vec::new();
        proof {
            assert(args.deep_view() =~= Seq::<ValueModel>::empty());
        }
        let from = self.render_from();
        let joins = render_joins(&self.joins, &mut args);
        proof {
            assert(args.deep_view() =~= spec_joins_args(self.joins@));
        }
        let wsql = if self.where_entries.len() > 0 {
            let inner = render_entries(&self.where_entries, self.driver, &self.alias, &mut args);
            String::from_str(" WHERE ").concat(inner.as_str())
        } else {
            proof {
                assert(entries_args(self.where_entries@) =~= Seq::<ValueModel>::empty());
                assert(args.deep_view() + Seq::<ValueModel>::empty() =~= args.deep_view());
            }
            String::new()
        };
        proof {
            assert(args.deep_view() =~= spec_joins_args(self.joins@) + entries_args(
                self.where_entries@,
            ));
            assert(wsql@ == self.spec_where(1 + spec_joins_args(self.joins@).len()));
        }
        let gsql = if self.group_by.len() > 0 {
            let inner = crate::text::join_strings(&self.group_by, ", ");
            String::from_str(" GROUP BY ").concat(inner.as_str())
        } else {
            String::new()
        };
        let hsql = if self.having_entries.len() > 0 {
            let inner = render_entries(&self.having_entries, self.driver, &self.alias, &mut args);
            String::from_str(" HAVING ").concat(inner.as_str())
        } else {
            proof {
                assert(entries_args(self.having_entries@) =~= Seq::<ValueModel>::empty());
                assert(args.deep_view() + Seq::<ValueModel>::empty() =~= args.deep_view());
            }
            String::new()
        };
        proof {
            assert(args.deep_view() =~= self.spec_select_args());
            assert(hsql@ == self.spec_having(
                1 + spec_joins_args(self.joins@).len() + entries_args(
                    self.where_entries@,
                ).len(),
            ));
        }
        let sql = String::from_str("SELECT COUNT(*)").concat(from.as_str()).concat(
            joins.as_str(),
        ).concat(wsql.as_str()).concat(gsql.as_str()).concat(hsql.as_str());
        (sql, args)
    }
}

/// A two-value BETWEEN leaf.
fn between_leaf(column: &str, lo: Value, hi: Value) -> (r: FilterNode)
    ensures
        r matches FilterNode::Leaf { column: c, op: o, values: v } && c@ == column@ && o
            == Op::Between && v.deep_view() == seq![lo@, hi@],
        arity_ok(r),
{
    let ghost lm = lo@;
    let ghost hm = hi@;
    let mut values: Vec<Value> = Vec::new();
    values.push(lo);
    values.push(hi);
    proof {
        assert forall|i: int| 0 <= i < 2 implies values.deep_view()[i] == seq![lm, hm][i] by {
            assert(values.deep_view()[i] == values@[i]@);
        }
        assert(values.deep_view() =~= seq![lm, hm]);
    }
    FilterNode::Leaf { column: String::from_str(column), op: Op::Between, values }
}

/// A raw-text node with one bound value.
fn raw_node(text: &str, value: Value) -> (r: FilterNode)
    ensures
        r matches FilterNode::Raw { text: t, values: v } && t@ == text@ && v.deep_view()
            == seq![value@],
        arity_ok(r),
{
    let ghost vm = value@;
    let mut values: Vec<Value> = Vec::new();
    values.push(value);
    proof {
        assert forall|i: int| 0 <= i < 1 implies values.deep_view()[i] == seq![vm][i] by {
            assert(values.deep_view()[0] == values@[0]@);
        }
        assert(values.deep_view() =~= seq![vm]);
    }
    FilterNode::Raw { text: String::from_str(text), values }
}

/// A two-element child list.
fn pair_nodes(a: FilterNode, b: FilterNode) -> (r: Vec<FilterNode>)
    ensures
        r@.len() == 2,
        r@[0] == a,
        r@[1] == b,
{
    let mut v: Vec<FilterNode> = Vec::new();
    v.push(a);
    v.push(b);
    v
}

impl FilterGroup {
    /// A fresh, empty filter scope.
    pub fn new() -> (r: Self)
        ensures
            r.entries@.len() == 0,
            entries_ok(r.entries@),
    {
        FilterGroup { entries: Vec::new() }
    }

    /// Appends an entry.
    fn push_entry(self, or: bool, node: FilterNode) -> (r: Self)
        ensures
            r.entries@ == self.entries@.push(WhereEntry { or, node }),
            arity_ok(node) && entries_ok(self.entries@) ==> entries_ok(r.entries@),
    {
        let mut s = self;
        s.entries.push(WhereEntry { or, node });
        proof {
            if arity_ok(s.entries@.last().node) && entries_ok(self.entries@) {
                assert forall|i: int| 0 <= i < s.entries@.len() implies arity_ok(
                    #[trigger] s.entries@[i].node,
                ) by {
                    if i < self.entries@.len() {
                        assert(s.entries@[i] == self.entries@[i]);
                    }
                }
            }
        }
        s
    }

    /// Appends an AND-joined leaf to the scope.
    pub fn filter(self, column: &str, op: Op, value: Value) -> (r: Self)
        requires
            is_binary_op(op),
        ensures
            r.entries@.len() == self.entries@.len() + 1,
            r.entries@ == self.entries@.push(r.entries@.last()),
            is_leaf_entry(r.entries@.last(), false, column@, op, seq![value@]),
            entries_ok(self.entries@) ==> entries_ok(r.entries@),
    {
        let node = binary_leaf(column, op, value);
        self.push_entry(false, node)
    }

    /// Appends an OR-joined leaf to the scope.
    pub fn or_filter(self, column: &str, op: Op, value: Value) -> (r: Self)
        requires
            is_binary_op(op),
        ensures
            r.entries@.len() == self.entries@.len() + 1,
            r.entries@ == self.entries@.push(r.entries@.last()),
            is_leaf_entry(r.entries@.last(), true, column@, op, seq![value@]),
            entries_ok(self.entries@) ==> entries_ok(r.entries@),
    {
        let node = binary_leaf(column, op, value);
        self.push_entry(true, node)
    }

    /// Appends an AND-joined negated leaf to the scope.
    pub fn not_filter(self, column: &str, op: Op, value: Value) -> (r: Self)
        requires
            is_binary_op(op),
        ensures
            r.entries@.len() == self.entries@.len() + 1,
            r.entries@ == self.entries@.push(r.entries@.last()),
            is_not_leaf_entry(r.entries@.last(), false, column@, op, seq![value@]),
            entries_ok(self.entries@) ==> entries_ok(r.entries@),
    {
        let node = FilterNode::Not(Box::new(binary_leaf(column, op, value)));
        self.push_entry(false, node)
    }

    /// Appends AND-joined raw predicate text with one bound value to the
    /// scope.
    pub fn where_raw(self, text: &str, value: Value) -> (r: Self)
        ensures
            r.entries@.len() == self.entries@.len() + 1,
            r.entries@ == self.entries@.push(r.entries@.last()),
            is_raw_entry(r.entries@.last(), false, text@, seq![value@]),
            entries_ok(self.entries@) ==> entries_ok(r.entries@),
    {
        let node = raw_node(text, value);
        self.push_entry(false, node)
    }

    /// Folds the scope's entries into one predicate tree: each successive
    /// entry is attached under a two-child AND or OR group according to
    /// its connector.
    pub fn to_node(self) -> (r: FilterNode)
        requires
            self.entries@.len() >= 1,
            entries_ok(self.entries@),
        ensures
            node_matches_fold(r, self.entries@),
            arity_ok(r),
    {
        let ghost orig = self.entries@;
        let mut entries = self.entries;
        let total = entries.len();
        let first = entries.remove(0);
        let mut node = first.node;
        let mut done: usize = 1;
        proof {
            assert(orig.take(1).len() == 1);
            assert(orig.take(1)[0] == orig[0]);
            assert(entries@ =~= orig.skip(1));
        }
        while entries.len() > 0
            invariant
                1 <= done <= orig.len(),
                orig.len() == total,
                entries@ =~= orig.skip(done as int),
                node_matches_fold(node, orig.take(done as int)),
                arity_ok(node),
                entries_ok(orig),
            decreases entries@.len(),
        {
            let e = entries.remove(0);
            proof {
                assert(orig.skip(done as int)[0] == orig[done as int]);
                assert(orig.skip(done as int).remove(0) =~= orig.skip(done as int + 1));
            }
            let ghost prev = node;
            let is_or = e.or;
            let pair = pair_nodes(node, e.node);
            node = if is_or {
                FilterNode::Or(pair)
            } else {
                FilterNode::And(pair)
            };
            proof {
                let t = orig.take(done as int + 1);
                assert(t.len() == done + 1);
                assert(t.last() == orig[done as int]);
                assert(t.drop_last() =~= orig.take(done as int));
                assert(arity_ok(orig[done as int].node));
                assert(arity_ok_list(seq![prev, orig[done as int].node].drop_first().drop_first())) by {
                    assert(seq![prev, orig[done as int].node].drop_first().drop_first() =~= Seq::<
                        FilterNode,
                    >::empty());
                }
                assert(seq![prev, orig[done as int].node].drop_first() =~= seq![
                    orig[done as int].node,
                ]);
                assert(arity_ok_list(Seq::<FilterNode>::empty()));
                assert(seq![prev, orig[done as int].node][0] == prev);
                assert(seq![prev, orig[done as int].node][1] == orig[done as int].node);
                assert(seq![orig[done as int].node].drop_first() =~= Seq::<FilterNode>::empty());
                assert(seq![orig[done as int].node][0] == orig[done as int].node);
                assert(arity_ok_list(seq![orig[done as int].node]));
                match &node {
                    FilterNode::Or(cs) => {
                        assert(cs@ =~= seq![prev, orig[done as int].node]);
                        assert(arity_ok_list(cs@));
                        assert(node_matches_fold(node, t));
                    },
                    FilterNode::And(cs) => {
                        assert(cs@ =~= seq![prev, orig[done as int].node]);
                        assert(arity_ok_list(cs@));
                        assert(node_matches_fold(node, t));
                    },
                    _ => {
                        assert(false);
                    },
                }
            }
            done = done + 1;
        }
        proof {
            assert(orig.skip(done as int).len() == 0);
            assert(done == orig.len());
            assert(orig.take(done as int) =~= orig);
        }
        node
    }
}

} // verus!
