use bottle_orm::builder::QueryBuilder;
use bottle_orm::dialect::Drivers;
use bottle_orm::filter::Op;
use bottle_orm::model::ColumnInfo;
use bottle_orm::pagination::{compute_total_pages, paginated_from, Pagination};
use bottle_orm::value::Value;

fn simple_builder() -> QueryBuilder {
    let columns = vec![ColumnInfo {
        name: "id",
        sql_type: "INTEGER",
        is_primary_key: true,
        is_nullable: false,
        create_time: false,
        update_time: false,
        unique: false,
        index: false,
        foreign_table: None,
        foreign_key: None,
        omit: false,
        soft_delete: false,
    }];
    let actives: Vec<&'static str> = vec!["id"];
    QueryBuilder::new(Drivers::SQLite, "User", columns, &actives)
}

#[test]
fn test_oversize_request_falls_back_to_default() {
    // above the ceiling: the fixed default of 10 is used, not the ceiling
    let p = Pagination::new_with_limit(0, 500, 100);
    assert_eq!(p.limit, 10);
    assert_eq!(p.max_limit, 100);

    let q = Pagination::new_with_limit(0, 101, 100);
    assert_eq!(q.limit, 10);

    let ok = Pagination::new_with_limit(2, 100, 100);
    assert_eq!(ok.limit, 100);
    assert_eq!(ok.page, 2);
}

#[test]
fn test_new_uses_default_ceiling() {
    let p = Pagination::new(1, 20);
    assert_eq!(p.limit, 20);
    assert_eq!(p.max_limit, 100);
    let over = Pagination::new(1, 101);
    assert_eq!(over.limit, 10);
}

#[test]
fn test_apply_sets_limit_and_offset() {
    let p = Pagination::new(3, 20);
    let q = p.apply(simple_builder());
    let (sql, _args) = q.build_query();
    assert!(sql.ends_with(" LIMIT 20 OFFSET 60"));
}

#[test]
fn test_queries_bind_identical_arguments() {
    let b = simple_builder().filter("id", Op::Gt, Value::Int(5));
    let p = Pagination::new(1, 10);
    let (count_sql, count_args, data_sql, data_args) = p.queries(b);
    assert_eq!(count_sql, "SELECT COUNT(*) FROM \"user\" WHERE id > ?");
    assert!(data_sql.ends_with(" WHERE id > ? LIMIT 10 OFFSET 10"));
    assert_eq!(count_args.len(), 1);
    assert_eq!(data_args.len(), 1);
    assert!(matches!(count_args[0], Value::Int(5)));
    assert!(matches!(data_args[0], Value::Int(5)));
}

#[test]
fn test_total_pages_is_ceiling() {
    assert_eq!(compute_total_pages(0, 5), 0);
    assert_eq!(compute_total_pages(1, 5), 1);
    assert_eq!(compute_total_pages(5, 5), 1);
    assert_eq!(compute_total_pages(6, 5), 2);
    assert_eq!(compute_total_pages(15, 5), 3);
    assert_eq!(compute_total_pages(16, 5), 4);
    assert_eq!(compute_total_pages(7, 1), 7);
}

#[test]
fn test_page_lengths_partition_total() {
    // total 13 rows at 5 per page: pages hold 5, 5, 3; the sum is 13
    let total: i64 = 13;
    let limit: usize = 5;
    let pages = compute_total_pages(total, limit);
    assert_eq!(pages, 3);
    let mut seen: i64 = 0;
    let mut i: i64 = 0;
    while i < pages {
        let offset = i * limit as i64;
        let len = if offset + limit as i64 <= total {
            limit as i64
        } else {
            total - offset
        };
        seen += len;
        i += 1;
    }
    assert_eq!(seen, total);
}

#[test]
fn test_paginated_from_metadata() {
    let data = vec!["a".to_string(), "b".to_string()];
    let page = paginated_from(data, 12, 0, 5);
    assert_eq!(page.total, 12);
    assert_eq!(page.total_pages, 3);
    assert_eq!(page.page, 0);
    assert_eq!(page.limit, 5);
    assert_eq!(page.data.len(), 2);
}
