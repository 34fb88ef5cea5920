//! Pagination settings: checking a requested page size against a safety
//! ceiling, deriving the count and data queries of a bounded page, and
//! the arithmetic that partitions a total row count into pages.

use vstd::prelude::*;
use crate::builder::QueryBuilder;
use crate::value::{Value, ValueModel};

verus! {

/// Fixed page size used when a request exceeds the configured ceiling.
/// The fallback is to this default, not to the ceiling itself.
pub const DEFAULT_PAGE_SIZE: usize = 10;

/// Ceiling applied when none is given explicitly.
pub const DEFAULT_MAX_PAGE_SIZE: usize = 100;

/// A builder for pagination settings: a zero-based page index, a page size,
/// and the safety ceiling the size was checked against.
pub struct Pagination {
    /// Zero-based page index.
    pub page: usize,
    /// Number of items per page.
    pub limit: usize,
    /// Maximum allowed items per page.
    pub max_limit: usize,
}

impl Pagination {
    /// Builds pagination settings with an explicit safety ceiling. A
    /// requested size above the ceiling falls back to the fixed default
    /// size rather than being clamped to the ceiling.
    pub fn new_with_limit(page: usize, limit: usize, max_limit: usize) -> (r: Self)
        ensures
            r.page == page,
            r.max_limit == max_limit,
            limit > max_limit ==> r.limit == DEFAULT_PAGE_SIZE,
            limit <= max_limit ==> r.limit == limit,
    {
        let mut f_limit = limit;
        if f_limit > max_limit {
            f_limit = DEFAULT_PAGE_SIZE;
        }
        Self { page, limit: f_limit, max_limit }
    }

    /// Builds pagination settings with the default safety ceiling.
    pub fn new(page: usize, limit: usize) -> (r: Self)
        ensures
            r.page == page,
            r.max_limit == DEFAULT_MAX_PAGE_SIZE,
            limit > DEFAULT_MAX_PAGE_SIZE ==> r.limit == DEFAULT_PAGE_SIZE,
            limit <= DEFAULT_MAX_PAGE_SIZE ==> r.limit == limit,
    {
        Self::new_with_limit(page, limit, DEFAULT_MAX_PAGE_SIZE)
    }

    /// Applies the settings to a query builder: a size above the ceiling
    /// falls back to the fixed default, then limit and offset are set to
    /// the page's window, leaving all other state alone.
    pub fn apply(self, query: QueryBuilder) -> (r: QueryBuilder)
        requires
            self.page * self.effective_limit() <= usize::MAX,
        ensures
            r == (QueryBuilder { limit: r.limit, offset: r.offset, ..query }),
            r.limit == Some(self.effective_limit()),
            r.offset == Some((self.page * self.effective_limit()) as usize),
            query.wf() ==> r.wf(),
    {
        let l = if self.limit > self.max_limit {
            DEFAULT_PAGE_SIZE
        } else {
            self.limit
        };
        query.limit(l).offset(self.page * l)
    }

    /// The page size actually used: the requested one, or the fixed
    /// default when the request exceeds the ceiling.
    pub open spec fn effective_limit(self) -> usize {
        if self.limit > self.max_limit {
            DEFAULT_PAGE_SIZE
        } else {
            self.limit
        }
    }

    /// The two statements of one paginated execution, over one builder
    /// state: the count query (projection rewritten to a count aggregate,
    /// ordering and paging dropped) and the data query with this page's
    /// limit and offset. Both bind identical WHERE/HAVING/join arguments,
    /// derived by re-walking the same predicate trees.
    pub fn queries(self, query: QueryBuilder) -> (r: (String, Vec<Value>, String, Vec<Value>))
        requires
            query.wf(),
            self.page * self.effective_limit() <= usize::MAX,
        ensures
            r.0@ == query.spec_count_sql(),
            r.2@ == (QueryBuilder {
                limit: Some(self.effective_limit()),
                offset: Some((self.page * self.effective_limit()) as usize),
                ..query
            }).spec_select_sql(),
            r.1.deep_view() == query.spec_select_args(),
            r.3.deep_view() == query.spec_select_args(),
            r.1.deep_view() == r.3.deep_view(),
    {
        let (count_sql, count_args) = query.build_count_query();
        let paged = self.apply(query);
        let (data_sql, data_args) = paged.build_query();
        proof {
            assert(paged.spec_select_args() == query.spec_select_args());
        }
        (count_sql, count_args, data_sql, data_args)
    }
}

/// A paginated result set: the page's rows plus metadata about the total
/// number of matching records and pages.
#[derive(Debug)]
pub struct Paginated<T> {
    /// The rows of the current page.
    pub data: Vec<T>,
    /// The total number of records matching the query, ignoring paging.
    pub total: i64,
    /// The zero-based page index.
    pub page: usize,
    /// The page size used.
    pub limit: usize,
    /// The total number of pages.
    pub total_pages: i64,
}

/// How many pages a total of `t` rows yields at `l` rows per page:
/// the ceiling of `t / l`.
pub open spec fn spec_total_pages(t: int, l: int) -> int
    recommends
        l >= 1,
{
    if t % l == 0 {
        t / l
    } else {
        t / l + 1
    }
}

/// The ceiling agrees with the usual closed form.
pub proof fn lemma_total_pages_closed_form(t: int, l: int)
    requires
        t >= 0,
        l >= 1,
    ensures
        spec_total_pages(t, l) == (t + l - 1) / l,
{
    vstd::arithmetic::div_mod::lemma_fundamental_div_mod(t, l);
    let q = t / l;
    let r = t % l;
    vstd::arithmetic::div_mod::lemma_mod_bound(t, l);
    if r == 0 {
        assert((t + l - 1) == q * l + (l - 1)) by (nonlinear_arith)
            requires
                t == l * q + r,
                r == 0,
        ;
        vstd::arithmetic::div_mod::lemma_fundamental_div_mod_converse(t + l - 1, l, q, l - 1);
    } else {
        assert((t + l - 1) == (q + 1) * l + (r - 1)) by (nonlinear_arith)
            requires
                t == l * q + r,
        ;
        vstd::arithmetic::div_mod::lemma_fundamental_div_mod_converse(t + l - 1, l, q + 1, r - 1);
    }
}

/// How many rows page `i` holds when `t` rows are served `l` per page:
/// a full page while one remains, the remainder on the last page, and
/// nothing beyond it.
pub open spec fn spec_page_len(i: int, t: int, l: int) -> int {
    if (i + 1) * l <= t {
        l
    } else if i * l < t {
        t - i * l
    } else {
        0
    }
}

/// The rows of the first `n` pages, counted together.
pub open spec fn spec_pages_sum(n: int, t: int, l: int) -> int
    decreases n,
{
    if n <= 0 {
        0
    } else {
        spec_pages_sum(n - 1, t, l) + spec_page_len(n - 1, t, l)
    }
}

/// The first `n` pages together hold `min(n * l, t)` rows.
proof fn lemma_pages_sum_min(n: int, t: int, l: int)
    requires
        n >= 0,
        t >= 0,
        l >= 1,
    ensures
        spec_pages_sum(n, t, l) == if n * l <= t {
            n * l
        } else {
            t
        },
    decreases n,
{
    if n == 0 {
        assert(n * l == 0) by (nonlinear_arith)
            requires
                n == 0,
        ;
    } else {
        lemma_pages_sum_min(n - 1, t, l);
        assert((n - 1) * l == n * l - l) by (nonlinear_arith);
        assert((n - 1 + 1) * l == n * l);
        if n * l <= t {
            assert((n - 1) * l <= t);
            assert(spec_page_len(n - 1, t, l) == l);
            assert(spec_pages_sum(n, t, l) == (n - 1) * l + l);
        } else if (n - 1) * l < t {
            assert(spec_page_len(n - 1, t, l) == t - (n - 1) * l);
            assert(spec_pages_sum(n, t, l) == (n - 1) * l + (t - (n - 1) * l));
        } else {
            assert(spec_page_len(n - 1, t, l) == 0);
            assert(spec_pages_sum(n, t, l) == t);
        }
    }
}

/// The pagination partition law: for any total row count `t` and page
/// size `l >= 1`, the page lengths over all `spec_total_pages(t, l)`
/// pages sum to exactly `t`, and every page past the last is empty.
pub proof fn lemma_pagination_partition(t: int, l: int)
    requires
        t >= 0,
        l >= 1,
    ensures
        spec_pages_sum(spec_total_pages(t, l), t, l) == t,
        forall|i: int| i >= spec_total_pages(t, l) ==> #[trigger] spec_page_len(i, t, l) == 0,
{
    let n = spec_total_pages(t, l);
    vstd::arithmetic::div_mod::lemma_fundamental_div_mod(t, l);
    vstd::arithmetic::div_mod::lemma_mod_bound(t, l);
    vstd::arithmetic::div_mod::lemma_div_pos_is_pos(t, l);
    assert(n * l >= t) by (nonlinear_arith)
        requires
            t == l * (t / l) + t % l,
            0 <= t % l < l,
            n == spec_total_pages(t, l),
            n == if t % l == 0 {
                t / l
            } else {
                t / l + 1
            },
    ;
    lemma_pages_sum_min(n, t, l);
    if n * l <= t {
        assert(n * l == t);
    }
    assert forall|i: int| i >= n implies #[trigger] spec_page_len(i, t, l) == 0 by {
        assert(i * l >= n * l) by (nonlinear_arith)
            requires
                i >= n,
                l >= 1,
        ;
        assert((i + 1) * l == i * l + l) by (nonlinear_arith);
        assert(i * l >= t);
    }
}

/// Computes the total page count: the ceiling of `total / limit`.
pub fn compute_total_pages(total: i64, limit: usize) -> (r: i64)
    requires
        total >= 0,
        limit >= 1,
        limit <= i64::MAX,
    ensures
        r == spec_total_pages(total as int, limit as int),
{
    let l = limit as i64;
    let q = total / l;
    let rem = total % l;
    if rem == 0 {
        q
    } else {
        proof {
            vstd::arithmetic::div_mod::lemma_fundamental_div_mod(total as int, l as int);
            vstd::arithmetic::div_mod::lemma_mod_bound(total as int, l as int);
            assert(q < total) by (nonlinear_arith)
                requires
                    total == l * q + rem,
                    rem >= 1,
                    l >= 1,
                    q >= 0,
                    total >= 0,
            ;
        }
        q + 1
    }
}

/// Assembles a paginated result from the fetched rows and the counted
/// total.
pub fn paginated_from<T>(data: Vec<T>, total: i64, page: usize, limit: usize) -> (r: Paginated<
    T,
>)
    requires
        total >= 0,
        limit >= 1,
        limit <= i64::MAX,
    ensures
        r.data == data,
        r.total == total,
        r.page == page,
        r.limit == limit,
        r.total_pages == spec_total_pages(total as int, limit as int),
{
    let total_pages = compute_total_pages(total, limit);
    Paginated { data, total, page, limit, total_pages }
}

} // verus!
