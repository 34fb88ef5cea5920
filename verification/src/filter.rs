//! The predicate tree behind WHERE and HAVING state: leaf predicates,
//! raw-text predicates with their own bind values, and AND/OR/NOT
//! combinators. Rendering and argument collection are two walks of the
//! same tree in the same left-to-right order, which is the structural
//! guarantee behind the placeholder/bind-order law proved here.

use vstd::prelude::*;
use crate::dialect::{marker, spec_placeholder, Drivers};
use crate::text::count_char;
use crate::value::{Value, ValueModel};

verus! {

/// A leaf predicate operator.
#[derive(Debug, Clone, Copy, PartialEq, Eq, Structural)]
pub enum Op {
    Eq,
    Neq,
    Gt,
    Gte,
    Lt,
    Lte,
    Like,
    In,
    Between,
    IsNull,
}

/// Whether `op` compares one column against one bound value.
pub open spec fn is_binary_op(op: Op) -> bool {
    match op {
        Op::In | Op::Between | Op::IsNull => false,
        _ => true,
    }
}

/// A WHERE/HAVING predicate tree.
#[derive(Debug)]
pub enum FilterNode {
    /// `column <op> value(s)`; the bound values are bound positionally.
    Leaf { column: String, op: Op, values: Vec<Value> },
    /// Raw SQL text with its positional bind values; the text is rendered
    /// as written and must carry one placeholder per value.
    Raw { text: String, values: Vec<Value> },
    /// All children must hold; rendered parenthesized, joined by `AND`.
    And(Vec<FilterNode>),
    /// Some child must hold; rendered parenthesized, joined by `OR`.
    Or(Vec<FilterNode>),
    /// The child must not hold; rendered as a parenthesized `NOT`.
    Not(Box<FilterNode>),
}

/// How many bound values a leaf with operator `op` must carry.
pub open spec fn leaf_arity_ok(op: Op, k: nat) -> bool {
    match op {
        Op::IsNull => k == 0,
        Op::Between => k == 2,
        Op::In => true,
        _ => k == 1,
    }
}

/// The bind values contributed by the tree, in left-to-right order.
pub open spec fn node_args(n: FilterNode) -> Seq<ValueModel>
    decreases n,
{
    match n {
        FilterNode::Leaf { values, .. } => values.deep_view(),
        FilterNode::Raw { values, .. } => values.deep_view(),
        FilterNode::And(cs) => list_args(cs@),
        FilterNode::Or(cs) => list_args(cs@),
        FilterNode::Not(c) => node_args(*c),
    }
}

/// The bind values of a list of trees, concatenated in order.
pub open spec fn list_args(s: Seq<FilterNode>) -> Seq<ValueModel>
    decreases s,
{
    if s.len() == 0 {
        Seq::empty()
    } else {
        node_args(s[0]) + list_args(s.drop_first())
    }
}

/// Every leaf of the tree carries as many values as its operator needs.
pub open spec fn arity_ok(n: FilterNode) -> bool
    decreases n,
{
    match n {
        FilterNode::Leaf { op, values, .. } => leaf_arity_ok(op, values.deep_view().len()),
        FilterNode::Raw { .. } => true,
        FilterNode::And(cs) => arity_ok_list(cs@),
        FilterNode::Or(cs) => arity_ok_list(cs@),
        FilterNode::Not(c) => arity_ok(*c),
    }
}

/// Arity holds of every tree of the list.
pub open spec fn arity_ok_list(s: Seq<FilterNode>) -> bool
    decreases s,
{
    if s.len() == 0 {
        true
    } else {
        arity_ok(s[0]) && arity_ok_list(s.drop_first())
    }
}

/// Well-formedness against the dialect's placeholder marker `m`: leaves
/// have correct arity and marker-free column names, and raw text carries
/// exactly one marker per bound value.
pub open spec fn wf_node(n: FilterNode, m: char) -> bool
    decreases n,
{
    match n {
        FilterNode::Leaf { column, op, values } => leaf_arity_ok(op, values.deep_view().len())
            && count_char(column@, m) == 0,
        FilterNode::Raw { text, values } => count_char(text@, m) == values.deep_view().len(),
        FilterNode::And(cs) => wf_list(cs@, m),
        FilterNode::Or(cs) => wf_list(cs@, m),
        FilterNode::Not(c) => wf_node(*c, m),
    }
}

/// Well-formedness of every tree of the list.
pub open spec fn wf_list(s: Seq<FilterNode>, m: char) -> bool
    decreases s,
{
    if s.len() == 0 {
        true
    } else {
        wf_node(s[0], m) && wf_list(s.drop_first(), m)
    }
}

/// A well-formed tree has correct arities.
pub proof fn lemma_wf_implies_arity(n: FilterNode, m: char)
    requires
        wf_node(n, m),
    ensures
        arity_ok(n),
    decreases n,
{
    match n {
        FilterNode::And(cs) => lemma_wf_list_implies_arity(cs@, m),
        FilterNode::Or(cs) => lemma_wf_list_implies_arity(cs@, m),
        FilterNode::Not(c) => lemma_wf_implies_arity(*c, m),
        _ => {},
    }
}

/// Well-formedness of a list gives correct arities throughout it.
pub proof fn lemma_wf_list_implies_arity(s: Seq<FilterNode>, m: char)
    requires
        wf_list(s, m),
    ensures
        arity_ok_list(s),
    decreases s,
{
    if s.len() > 0 {
        lemma_wf_implies_arity(s[0], m);
        lemma_wf_list_implies_arity(s.drop_first(), m);
    }
}

/// The optional qualifier prefix (a table alias) applied to self-referential
/// column names.
pub open spec fn qual_view(q: Option<String>) -> Option<Seq<char>> {
    match q {
        Some(s) => Some(s@),
        None => None,
    }
}

/// A qualifier is harmless when it is absent or marker-free.
pub open spec fn wf_qual(q: Option<Seq<char>>, m: char) -> bool {
    match q {
        Some(s) => count_char(s, m) == 0,
        None => true,
    }
}

/// A column name qualified by the alias, unless it already carries an
/// explicit qualification of its own.
pub open spec fn spec_qualified(col: Seq<char>, qual: Option<Seq<char>>) -> Seq<char> {
    match qual {
        Some(q) => if !col.contains('.') {
            q + seq!['.'] + col
        } else {
            col
        },
        None => col,
    }
}

/// The SQL fragment for a binary comparison operator.
pub open spec fn op_sql(op: Op) -> Seq<char> {
    match op {
        Op::Eq => " = "@,
        Op::Neq => " <> "@,
        Op::Gt => " > "@,
        Op::Gte => " >= "@,
        Op::Lt => " < "@,
        Op::Lte => " <= "@,
        Op::Like => " LIKE "@,
        _ => Seq::empty(),
    }
}

/// `k` comma-separated placeholders numbered from `start`.
pub open spec fn spec_ph_list(driver: Drivers, start: nat, k: nat) -> Seq<char>
    decreases k,
{
    if k == 0 {
        Seq::empty()
    } else if k == 1 {
        spec_placeholder(driver, start)
    } else {
        spec_placeholder(driver, start) + ", "@ + spec_ph_list(driver, start + 1, (k - 1) as nat)
    }
}

/// Appending one more placeholder to a non-empty list extends it on the
/// right.
pub proof fn lemma_ph_list_snoc(driver: Drivers, start: nat, k: nat)
    requires
        k >= 1,
    ensures
        spec_ph_list(driver, start, k + 1) == spec_ph_list(driver, start, k) + ", "@
            + spec_placeholder(driver, start + k),
    decreases k,
{
    if k == 1 {
        assert(spec_ph_list(driver, start, 1) == spec_placeholder(driver, start));
        assert(spec_ph_list(driver, start + 1, 1) == spec_placeholder(driver, start + 1));
        assert(spec_ph_list(driver, start, 2) == spec_placeholder(driver, start) + ", "@
            + spec_ph_list(driver, start + 1, 1));
    } else {
        lemma_ph_list_snoc(driver, start + 1, (k - 1) as nat);
        assert(spec_ph_list(driver, start, k + 1) == spec_placeholder(driver, start) + ", "@
            + spec_ph_list(driver, start + 1, k));
        assert(spec_placeholder(driver, start) + ", "@ + (spec_ph_list(
            driver,
            start + 1,
            (k - 1) as nat,
        ) + ", "@ + spec_placeholder(driver, start + k)) =~= (spec_placeholder(driver, start)
            + ", "@ + spec_ph_list(driver, start + 1, (k - 1) as nat)) + ", "@
            + spec_placeholder(driver, start + k));
    }
}

/// The rendered text of a leaf whose operator is `op`, with `nvals` bound
/// values numbered from `start`.
pub open spec fn spec_leaf_sql(
    col: Seq<char>,
    op: Op,
    nvals: nat,
    driver: Drivers,
    qual: Option<Seq<char>>,
    start: nat,
) -> Seq<char> {
    let qcol = spec_qualified(col, qual);
    match op {
        Op::IsNull => qcol + " IS NULL"@,
        Op::Between => qcol + " BETWEEN "@ + spec_placeholder(driver, start) + " AND "@
            + spec_placeholder(driver, start + 1),
        Op::In => qcol + " IN ("@ + spec_ph_list(driver, start, nvals) + ")"@,
        _ => qcol + op_sql(op) + spec_placeholder(driver, start),
    }
}

/// The rendered SQL text of a tree, binding values from the 1-based
/// placeholder index `start` onward.
pub open spec fn spec_render_node(
    n: FilterNode,
    driver: Drivers,
    qual: Option<Seq<char>>,
    start: nat,
) -> Seq<char>
    decreases n,
{
    match n {
        FilterNode::Leaf { column, op, values } => spec_leaf_sql(
            column@,
            op,
            values.deep_view().len(),
            driver,
            qual,
            start,
        ),
        FilterNode::Raw { text, .. } => text@,
        FilterNode::And(cs) => seq!['('] + spec_render_list(cs@, driver, qual, start, " AND "@)
            + seq![')'],
        FilterNode::Or(cs) => seq!['('] + spec_render_list(cs@, driver, qual, start, " OR "@)
            + seq![')'],
        FilterNode::Not(c) => "NOT ("@ + spec_render_node(*c, driver, qual, start) + seq![')'],
    }
}

/// The rendered text of a list of trees joined by `sep`, threading the
/// placeholder numbering through the children left to right.
pub open spec fn spec_render_list(
    s: Seq<FilterNode>,
    driver: Drivers,
    qual: Option<Seq<char>>,
    start: nat,
    sep: Seq<char>,
) -> Seq<char>
    decreases s,
{
    if s.len() == 0 {
        Seq::empty()
    } else if s.len() == 1 {
        spec_render_node(s[0], driver, qual, start)
    } else {
        spec_render_node(s[0], driver, qual, start) + sep + spec_render_list(
            s.drop_first(),
            driver,
            qual,
            start + node_args(s[0]).len(),
            sep,
        )
    }
}

/// Appending one more tree to a list extends its rendering on the right,
/// numbered after all earlier bind values.
pub proof fn lemma_render_list_snoc(
    s: Seq<FilterNode>,
    x: FilterNode,
    driver: Drivers,
    qual: Option<Seq<char>>,
    start: nat,
    sep: Seq<char>,
)
    requires
        s.len() >= 1,
    ensures
        spec_render_list(s.push(x), driver, qual, start, sep) == spec_render_list(
            s,
            driver,
            qual,
            start,
            sep,
        ) + sep + spec_render_node(x, driver, qual, start + list_args(s).len()),
    decreases s,
{
    let sx = s.push(x);
    assert(sx[0] == s[0]);
    assert(sx.drop_first() =~= s.drop_first().push(x));
    if s.len() == 1 {
        assert(s.drop_first() =~= Seq::<FilterNode>::empty());
        assert(sx.drop_first() =~= seq![x]);
        assert(spec_render_list(sx, driver, qual, start, sep) == spec_render_node(
            s[0],
            driver,
            qual,
            start,
        ) + sep + spec_render_node(x, driver, qual, start + node_args(s[0]).len()));
        assert(list_args(s) =~= node_args(s[0]));
    } else {
        lemma_render_list_snoc(
            s.drop_first(),
            x,
            driver,
            qual,
            start + node_args(s[0]).len(),
            sep,
        );
        assert(spec_render_list(sx, driver, qual, start, sep) == spec_render_node(
            s[0],
            driver,
            qual,
            start,
        ) + sep + spec_render_list(
            sx.drop_first(),
            driver,
            qual,
            start + node_args(s[0]).len(),
            sep,
        ));
        assert(list_args(s) =~= node_args(s[0]) + list_args(s.drop_first()));
        assert((spec_render_node(s[0], driver, qual, start) + sep) + (spec_render_list(
            s.drop_first(),
            driver,
            qual,
            start + node_args(s[0]).len(),
            sep,
        ) + sep + spec_render_node(x, driver, qual, start + list_args(s).len())) =~= (
        spec_render_node(s[0], driver, qual, start) + sep + spec_render_list(
            s.drop_first(),
            driver,
            qual,
            start + node_args(s[0]).len(),
            sep,
        )) + sep + spec_render_node(x, driver, qual, start + list_args(s).len()));
    }
}

/// Appending one more tree to a list appends its bind values.
pub proof fn lemma_list_args_snoc(s: Seq<FilterNode>, x: FilterNode)
    ensures
        list_args(s.push(x)) == list_args(s) + node_args(x),
    decreases s,
{
    let sx = s.push(x);
    if s.len() == 0 {
        assert(sx[0] == x);
        assert(sx.drop_first() =~= Seq::<FilterNode>::empty());
        assert(list_args(Seq::<FilterNode>::empty()) =~= Seq::<ValueModel>::empty());
        assert(list_args(sx) =~= node_args(x));
        assert(list_args(s) + node_args(x) =~= node_args(x));
    } else {
        assert(sx[0] == s[0]);
        assert(sx.drop_first() =~= s.drop_first().push(x));
        lemma_list_args_snoc(s.drop_first(), x);
        assert(node_args(s[0]) + (list_args(s.drop_first()) + node_args(x)) =~= (node_args(s[0])
            + list_args(s.drop_first())) + node_args(x));
    }
}

/// The connective and fixed fragments of rendered predicates hold no
/// placeholder marker.
proof fn lemma_fragments_clean(m: char)
    requires
        m == '$' || m == '?',
    ensures
        count_char(" = "@, m) == 0,
        count_char(" <> "@, m) == 0,
        count_char(" > "@, m) == 0,
        count_char(" >= "@, m) == 0,
        count_char(" < "@, m) == 0,
        count_char(" <= "@, m) == 0,
        count_char(" LIKE "@, m) == 0,
        count_char(" IS NULL"@, m) == 0,
        count_char(" BETWEEN "@, m) == 0,
        count_char(" AND "@, m) == 0,
        count_char(" IN ("@, m) == 0,
        count_char(" OR "@, m) == 0,
        count_char("NOT ("@, m) == 0,
        count_char(", "@, m) == 0,
        count_char("("@, m) == 0,
        count_char(")"@, m) == 0,
        count_char(Seq::<char>::empty(), m) == 0,
{
    reveal_strlit("(");
    reveal_strlit(")");
    crate::text::lemma_count_char_absent("("@, m);
    crate::text::lemma_count_char_absent(")"@, m);
    reveal_strlit(" = ");
    reveal_strlit(" <> ");
    reveal_strlit(" > ");
    reveal_strlit(" >= ");
    reveal_strlit(" < ");
    reveal_strlit(" <= ");
    reveal_strlit(" LIKE ");
    reveal_strlit(" IS NULL");
    reveal_strlit(" BETWEEN ");
    reveal_strlit(" AND ");
    reveal_strlit(" IN (");
    reveal_strlit(" OR ");
    reveal_strlit("NOT (");
    reveal_strlit(", ");
    crate::text::lemma_count_char_absent(" = "@, m);
    crate::text::lemma_count_char_absent(" <> "@, m);
    crate::text::lemma_count_char_absent(" > "@, m);
    crate::text::lemma_count_char_absent(" >= "@, m);
    crate::text::lemma_count_char_absent(" < "@, m);
    crate::text::lemma_count_char_absent(" <= "@, m);
    crate::text::lemma_count_char_absent(" LIKE "@, m);
    crate::text::lemma_count_char_absent(" IS NULL"@, m);
    crate::text::lemma_count_char_absent(" BETWEEN "@, m);
    crate::text::lemma_count_char_absent(" AND "@, m);
    crate::text::lemma_count_char_absent(" IN ("@, m);
    crate::text::lemma_count_char_absent(" OR "@, m);
    crate::text::lemma_count_char_absent("NOT ("@, m);
    crate::text::lemma_count_char_absent(", "@, m);
}

/// A qualified column name stays marker-free.
proof fn lemma_qualified_clean(col: Seq<char>, qual: Option<Seq<char>>, m: char)
    requires
        m == '$' || m == '?',
        count_char(col, m) == 0,
        wf_qual(qual, m),
    ensures
        count_char(spec_qualified(col, qual), m) == 0,
{
    broadcast use crate::text::lemma_count_char_concat;

    crate::text::lemma_count_char_single('.', m);
    match qual {
        Some(q) => {},
        None => {},
    }
}

/// A run of `k` placeholders shows the marker exactly `k` times.
proof fn lemma_ph_list_count(driver: Drivers, start: nat, k: nat)
    ensures
        count_char(spec_ph_list(driver, start, k), marker(driver)) == k,
    decreases k,
{
    broadcast use crate::text::lemma_count_char_concat;

    let m = marker(driver);
    lemma_fragments_clean(m);
    if k == 0 {
    } else if k == 1 {
        crate::dialect::lemma_placeholder_marker_count(driver, start);
    } else {
        crate::dialect::lemma_placeholder_marker_count(driver, start);
        lemma_ph_list_count(driver, start + 1, (k - 1) as nat);
    }
}

/// The placeholder/bind-order law, on one tree: a well-formed tree renders
/// exactly one placeholder marker per bind value it contributes, walking
/// render and bind in the same left-to-right order.
pub proof fn lemma_placeholders_match_binds(
    n: FilterNode,
    driver: Drivers,
    qual: Option<Seq<char>>,
    start: nat,
)
    requires
        wf_node(n, marker(driver)),
        wf_qual(qual, marker(driver)),
    ensures
        count_char(spec_render_node(n, driver, qual, start), marker(driver)) == node_args(
            n,
        ).len(),
    decreases n,
{
    let m = marker(driver);
    lemma_fragments_clean(m);
    crate::text::lemma_count_char_single('(', m);
    crate::text::lemma_count_char_single(')', m);
    match n {
        FilterNode::Leaf { column, op, values } => {
            lemma_qualified_clean(column@, qual, m);
            let qcol = spec_qualified(column@, qual);
            let k = values.deep_view().len();
            match op {
                Op::IsNull => {
                    crate::text::lemma_count_char_concat(qcol, " IS NULL"@, m);
                },
                Op::Between => {
                    crate::dialect::lemma_placeholder_marker_count(driver, start);
                    crate::dialect::lemma_placeholder_marker_count(driver, start + 1);
                    crate::text::lemma_count_char_concat(qcol, " BETWEEN "@, m);
                    crate::text::lemma_count_char_concat(
                        qcol + " BETWEEN "@,
                        spec_placeholder(driver, start),
                        m,
                    );
                    crate::text::lemma_count_char_concat(
                        qcol + " BETWEEN "@ + spec_placeholder(driver, start),
                        " AND "@,
                        m,
                    );
                    crate::text::lemma_count_char_concat(
                        qcol + " BETWEEN "@ + spec_placeholder(driver, start) + " AND "@,
                        spec_placeholder(driver, start + 1),
                        m,
                    );
                },
                Op::In => {
                    lemma_ph_list_count(driver, start, k);
                    crate::text::lemma_count_char_concat(qcol, " IN ("@, m);
                    crate::text::lemma_count_char_concat(
                        qcol + " IN ("@,
                        spec_ph_list(driver, start, k),
                        m,
                    );
                    crate::text::lemma_count_char_concat(
                        qcol + " IN ("@ + spec_ph_list(driver, start, k),
                        ")"@,
                        m,
                    );
                },
                _ => {
                    crate::dialect::lemma_placeholder_marker_count(driver, start);
                    crate::text::lemma_count_char_concat(qcol, op_sql(op), m);
                    crate::text::lemma_count_char_concat(
                        qcol + op_sql(op),
                        spec_placeholder(driver, start),
                        m,
                    );
                },
            }
        },
        FilterNode::Raw { text, values } => {},
        FilterNode::And(cs) => {
            lemma_render_list_placeholders(cs@, driver, qual, start, " AND "@);
            crate::text::lemma_count_char_concat(
                seq!['('],
                spec_render_list(cs@, driver, qual, start, " AND "@),
                m,
            );
            crate::text::lemma_count_char_concat(
                seq!['('] + spec_render_list(cs@, driver, qual, start, " AND "@),
                seq![')'],
                m,
            );
        },
        FilterNode::Or(cs) => {
            lemma_render_list_placeholders(cs@, driver, qual, start, " OR "@);
            crate::text::lemma_count_char_concat(
                seq!['('],
                spec_render_list(cs@, driver, qual, start, " OR "@),
                m,
            );
            crate::text::lemma_count_char_concat(
                seq!['('] + spec_render_list(cs@, driver, qual, start, " OR "@),
                seq![')'],
                m,
            );
        },
        FilterNode::Not(c) => {
            lemma_placeholders_match_binds(*c, driver, qual, start);
            crate::text::lemma_count_char_concat(
                "NOT ("@,
                spec_render_node(*c, driver, qual, start),
                m,
            );
            crate::text::lemma_count_char_concat(
                "NOT ("@ + spec_render_node(*c, driver, qual, start),
                seq![')'],
                m,
            );
        },
    }
}

/// The placeholder/bind-order law, on a list of trees joined by a
/// marker-free separator.
pub proof fn lemma_render_list_placeholders(
    s: Seq<FilterNode>,
    driver: Drivers,
    qual: Option<Seq<char>>,
    start: nat,
    sep: Seq<char>,
)
    requires
        wf_list(s, marker(driver)),
        wf_qual(qual, marker(driver)),
        count_char(sep, marker(driver)) == 0,
    ensures
        count_char(spec_render_list(s, driver, qual, start, sep), marker(driver)) == list_args(
            s,
        ).len(),
    decreases s,
{
    let m = marker(driver);
    if s.len() == 0 {
    } else if s.len() == 1 {
        lemma_placeholders_match_binds(s[0], driver, qual, start);
        assert(list_args(s.drop_first()) =~= Seq::<ValueModel>::empty());
    } else {
        lemma_placeholders_match_binds(s[0], driver, qual, start);
        lemma_render_list_placeholders(
            s.drop_first(),
            driver,
            qual,
            start + node_args(s[0]).len(),
            sep,
        );
        crate::text::lemma_count_char_concat(spec_render_node(s[0], driver, qual, start), sep, m);
        crate::text::lemma_count_char_concat(
            spec_render_node(s[0], driver, qual, start) + sep,
            spec_render_list(s.drop_first(), driver, qual, start + node_args(s[0]).len(), sep),
            m,
        );
    }
}

/// Arity of a list gives arity of each member.
pub proof fn lemma_arity_list_index(s: Seq<FilterNode>)
    requires
        arity_ok_list(s),
    ensures
        forall|i: int| 0 <= i < s.len() ==> #[trigger] arity_ok(s[i]),
    decreases s,
{
    if s.len() > 0 {
        lemma_arity_list_index(s.drop_first());
        assert forall|i: int| 0 <= i < s.len() implies #[trigger] arity_ok(s[i]) by {
            if i > 0 {
                assert(s.drop_first()[i - 1] == s[i]);
            }
        }
    }
}

/// The SQL fragment of a binary comparison operator; empty for the
/// operators that render their own shape.
fn op_sql_str(op: Op) -> (r: &'static str)
    ensures
        r@ == op_sql(op),
{
    proof {
        reveal_strlit("");
    }
    match op {
        Op::Eq => " = ",
        Op::Neq => " <> ",
        Op::Gt => " > ",
        Op::Gte => " >= ",
        Op::Lt => " < ",
        Op::Lte => " <= ",
        Op::Like => " LIKE ",
        _ => "",
    }
}

/// Qualifies a self-referential column name with the alias, leaving
/// explicitly qualified names alone.
fn qualify(column: &String, qual: &Option<String>) -> (r: String)
    ensures
        r@ == spec_qualified(column@, qual_view(*qual)),
{
    match qual {
        Some(q) => {
            if crate::text::str_contains_char(column.as_str(), '.') {
                column.clone()
            } else {
                let r = q.clone().concat(".").concat(column.as_str());
                proof {
                    reveal_strlit(".");
                    assert("."@ =~= seq!['.']);
                }
                r
            }
        },
        None => column.clone(),
    }
}

/// Renders the tree to SQL text, appending its bind values to `args` in
/// the same left-to-right order; placeholders are numbered from the
/// position after the values already in `args`.
pub fn render_node(n: &FilterNode, driver: Drivers, qual: &Option<String>, args: &mut Vec<
    Value,
>) -> (r: String)
    requires
        arity_ok(*n),
    ensures
        final(args).deep_view() == old(args).deep_view() + node_args(*n),
        r@ == spec_render_node(*n, driver, qual_view(*qual), old(args).deep_view().len() + 1),
    decreases *n,
{
    let ghost start: nat = args.deep_view().len() + 1;
    let ghost old_deep: Seq<ValueModel> = args.deep_view();
    match n {
        FilterNode::Leaf { column, op, values } => {
            let qcol = qualify(column, qual);
            match op {
                Op::IsNull => {
                    assert(args.deep_view() =~= old_deep + node_args(*n));
                    qcol.concat(" IS NULL")
                },
                Op::Between => {
                    crate::value::push_value(args, &values[0]);
                    let i1 = args.len();
                    crate::value::push_value(args, &values[1]);
                    let i2 = args.len();
                    proof {
                        assert(values.deep_view()[0] == values@[0]@);
                        assert(values.deep_view()[1] == values@[1]@);
                        assert(args.deep_view() =~= old_deep + node_args(*n));
                        assert(args@.len() == args.deep_view().len());
                        assert(i1 as nat == start);
                        assert(i2 as nat == start + 1);
                    }
                    let p1 = crate::dialect::placeholder(driver, i1);
                    let p2 = crate::dialect::placeholder(driver, i2);
                    qcol.concat(" BETWEEN ").concat(p1.as_str()).concat(" AND ").concat(
                        p2.as_str(),
                    )
                },
                Op::In => {
                    let mut list = String::new();
                    let mut j: usize = 0;
                    while j < values.len()
                        invariant
                            0 <= j <= values.len(),
                            args.deep_view() =~= old_deep + values.deep_view().take(j as int),
                            list@ == spec_ph_list(driver, start, j as nat),
                            start == old_deep.len() + 1,
                        decreases values.len() - j,
                    {
                        let ghost pre_deep = args.deep_view();
                        crate::value::push_value(args, &values[j]);
                        let idx = args.len();
                        proof {
                            assert(values.deep_view()[j as int] == values@[j as int]@);
                            assert(args.deep_view() =~= old_deep + values.deep_view().take(
                                j as int,
                            ).push(values.deep_view()[j as int]));
                            assert(values.deep_view().take(j as int).push(
                                values.deep_view()[j as int],
                            ) =~= values.deep_view().take(j + 1));
                            assert(idx as nat == start + j as nat);
                        }
                        let p = crate::dialect::placeholder(driver, idx);
                        if j > 0 {
                            proof {
                                lemma_ph_list_snoc(driver, start, j as nat);
                            }
                            list = list.concat(", ").concat(p.as_str());
                        } else {
                            list = list.concat(p.as_str());
                        }
                        j = j + 1;
                    }
                    assert(values.deep_view().take(values@.len() as int) =~= values.deep_view());
                    assert(args.deep_view() =~= old_deep + node_args(*n));
                    qcol.concat(" IN (").concat(list.as_str()).concat(")")
                },
                _ => {
                    crate::value::push_value(args, &values[0]);
                    let idx = args.len();
                    proof {
                        assert(values.deep_view()[0] == values@[0]@);
                        assert(args.deep_view() =~= old_deep + node_args(*n));
                        assert(idx as nat == start);
                    }
                    let p = crate::dialect::placeholder(driver, idx);
                    qcol.concat(op_sql_str(*op)).concat(p.as_str())
                },
            }
        },
        FilterNode::Raw { text, values } => {
            let mut j: usize = 0;
            while j < values.len()
                invariant
                    0 <= j <= values.len(),
                    args.deep_view() =~= old_deep + values.deep_view().take(j as int),
                decreases values.len() - j,
            {
                crate::value::push_value(args, &values[j]);
                proof {
                    assert(values.deep_view()[j as int] == values@[j as int]@);
                    assert(args.deep_view() =~= old_deep + values.deep_view().take(j as int).push(
                        values.deep_view()[j as int],
                    ));
                    assert(values.deep_view().take(j as int).push(values.deep_view()[j as int])
                        =~= values.deep_view().take(j + 1));
                }
                j = j + 1;
            }
            assert(values.deep_view().take(values@.len() as int) =~= values.deep_view());
            assert(args.deep_view() =~= old_deep + node_args(*n));
            text.clone()
        },
        FilterNode::And(cs) => {
            let r = render_group(cs, driver, qual, args, true);
            proof {
                assert(r@ == spec_render_node(*n, driver, qual_view(*qual), start));
            }
            r
        },
        FilterNode::Or(cs) => {
            let r = render_group(cs, driver, qual, args, false);
            proof {
                assert(r@ == spec_render_node(*n, driver, qual_view(*qual), start));
            }
            r
        },
        FilterNode::Not(c) => {
            let inner = render_node(c, driver, qual, args);
            let r = String::from_str("NOT (").concat(inner.as_str()).concat(")");
            proof {
                reveal_strlit(")");
                assert(")"@ =~= seq![')']);
            }
            r
        },
    }
}

/// Renders a parenthesized group of children joined by `AND` or `OR`.
fn render_group(cs: &Vec<FilterNode>, driver: Drivers, qual: &Option<String>, args: &mut Vec<
    Value,
>, conj: bool) -> (r: String)
    requires
        arity_ok_list(cs@),
    ensures
        final(args).deep_view() == old(args).deep_view() + list_args(cs@),
        r@ == seq!['('] + spec_render_list(
            cs@,
            driver,
            qual_view(*qual),
            old(args).deep_view().len() + 1,
            if conj {
                " AND "@
            } else {
                " OR "@
            },
        ) + seq![')'],
    decreases cs@,
{
    let ghost start: nat = args.deep_view().len() + 1;
    let ghost old_deep: Seq<ValueModel> = args.deep_view();
    let ghost sep: Seq<char> = if conj {
        " AND "@
    } else {
        " OR "@
    };
    proof {
        lemma_arity_list_index(cs@);
    }
    let mut acc = String::from_str("(");
    proof {
        reveal_strlit("(");
        assert("("@ =~= seq!['(']);
    }
    let mut i: usize = 0;
    while i < cs.len()
        invariant
            0 <= i <= cs.len(),
            args.deep_view() =~= old_deep + list_args(cs@.take(i as int)),
            acc@ == seq!['('] + spec_render_list(cs@.take(i as int), driver, qual_view(*qual), start, sep),
            start == old_deep.len() + 1,
            sep == if conj { " AND "@ } else { " OR "@ },
            forall|k: int| 0 <= k < cs@.len() ==> #[trigger] arity_ok(cs@[k]),
        decreases cs.len() - i,
    {
        let ghost prefix: Seq<FilterNode> = cs@.take(i as int);
        if i > 0 {
            if conj {
                acc = acc.concat(" AND ");
            } else {
                acc = acc.concat(" OR ");
            }
        }
        let piece = render_node(&cs[i], driver, qual, args);
        acc = acc.concat(piece.as_str());
        proof {
            assert(prefix.push(cs@[i as int]) =~= cs@.take(i + 1));
            lemma_list_args_snoc(prefix, cs@[i as int]);
            if i > 0 {
                lemma_render_list_snoc(prefix, cs@[i as int], driver, qual_view(*qual), start, sep);
            } else {
                assert(prefix =~= Seq::<FilterNode>::empty());
                assert(list_args(prefix) =~= Seq::<ValueModel>::empty());
                assert(cs@.take(1)[0] == cs@[0]);
                assert(cs@.take(1).drop_first() =~= Seq::<FilterNode>::empty());
            }
        }
        i = i + 1;
    }
    proof {
        assert(cs@.take(cs@.len() as int) =~= cs@);
        reveal_strlit(")");
        assert(")"@ =~= seq![')']);
    }
    acc.concat(")")
}

/// A list whose members all have correct arity has it as a whole.
pub proof fn lemma_arity_list_from_forall(s: Seq<FilterNode>)
    requires
        forall|i: int| 0 <= i < s.len() ==> #[trigger] arity_ok(s[i]),
    ensures
        arity_ok_list(s),
    decreases s,
{
    if s.len() == 0 {
        assert(arity_ok_list(s));
    } else {
        assert forall|i: int| 0 <= i < s.drop_first().len() implies #[trigger] arity_ok(
            s.drop_first()[i],
        ) by {
            assert(s.drop_first()[i] == s[i + 1]);
        }
        lemma_arity_list_from_forall(s.drop_first());
        assert(arity_ok(s[0]));
    }
}

/// Tests at run time whether every leaf of the tree carries as many
/// values as its operator needs, so that the tree can be rendered.
pub fn arity_check(n: &FilterNode) -> (r: bool)
    ensures
        r == arity_ok(*n),
    decreases *n,
{
    match n {
        FilterNode::Leaf { op, values, .. } => {
            let k = values.len();
            proof {
                assert(values.deep_view().len() == values@.len());
            }
            match op {
                Op::IsNull => k == 0,
                Op::Between => k == 2,
                Op::In => true,
                _ => k == 1,
            }
        },
        FilterNode::Raw { .. } => true,
        FilterNode::And(cs) => arity_check_list(cs),
        FilterNode::Or(cs) => arity_check_list(cs),
        FilterNode::Not(c) => arity_check(c),
    }
}

/// Tests arity over every tree of the list.
fn arity_check_list(cs: &Vec<FilterNode>) -> (r: bool)
    ensures
        r == arity_ok_list(cs@),
    decreases cs@,
{
    let mut i: usize = 0;
    while i < cs.len()
        invariant
            0 <= i <= cs@.len(),
            forall|j: int| 0 <= j < i ==> #[trigger] arity_ok(cs@[j]),
        decreases cs@.len() - i,
    {
        if !arity_check(&cs[i]) {
            proof {
                if arity_ok_list(cs@) {
                    lemma_arity_list_index(cs@);
                }
            }
            return false;
        }
        i = i + 1;
    }
    proof {
        lemma_arity_list_from_forall(cs@);
    }
    true
}

} // verus!
