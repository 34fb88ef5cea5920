use bottle_orm::decode::{
    decode_optional_enum, decode_required_enum, require_one, value_as_i64, value_as_text, DbRow,
};
use bottle_orm::error::OrmError;
use bottle_orm::value::Value;

fn roles() -> Vec<String> {
    vec!["admin".to_string(), "user".to_string(), "guest".to_string()]
}

fn sample_row() -> DbRow {
    let mut row = DbRow::new();
    row.push_field("user__username", Value::text("join_user"));
    row.push_field("username", Value::text("bare_name"));
    row.push_field("age", Value::Int(30));
    row.push_field("role", Value::text("user"));
    row.push_field("optional_role", Value::Null);
    row
}

#[test]
fn test_lookup_prefers_qualified_name() {
    let row = sample_row();
    let v = row
        .get_with_fallback(&"user__username".to_string(), &"username".to_string())
        .unwrap();
    assert!(matches!(v, Value::Text(s) if s == "join_user"));
}

#[test]
fn test_lookup_falls_back_to_bare_name() {
    // the same decode path serves a query with no alias set: the
    // qualified name misses and the bare column is used
    let mut row = DbRow::new();
    row.push_field("username", Value::text("scan_as_user"));
    let v = row
        .get_with_fallback(&"user__username".to_string(), &"username".to_string())
        .unwrap();
    assert!(matches!(v, Value::Text(s) if s == "scan_as_user"));
    assert!(row.get(&"missing".to_string()).is_none());
}

#[test]
fn test_nullable_enum_absent_is_none_not_error() {
    let row = sample_row();
    let r = decode_optional_enum(
        &row,
        &"enum_user__optional_role".to_string(),
        &"optional_role".to_string(),
        &roles(),
        "optional_role",
    );
    assert!(matches!(r, Ok(None)));

    // a column missing from the row entirely is also the absent value
    let r2 = decode_optional_enum(
        &row,
        &"enum_user__other".to_string(),
        &"other".to_string(),
        &roles(),
        "other",
    );
    assert!(matches!(r2, Ok(None)));
}

#[test]
fn test_enum_variant_decodes_to_position() {
    let row = sample_row();
    let r = decode_required_enum(
        &row,
        &"enum_user__role".to_string(),
        &"role".to_string(),
        &roles(),
        "role",
    );
    assert_eq!(r.unwrap(), 1);
}

#[test]
fn test_unrecognized_enum_string_names_the_column() {
    let mut row = DbRow::new();
    row.push_field("role", Value::text("overlord"));
    let r = decode_required_enum(
        &row,
        &"enum_user__role".to_string(),
        &"role".to_string(),
        &roles(),
        "role",
    );
    assert!(matches!(r, Err(OrmError::DecodeError(c)) if c == "role"));

    let r2 = decode_optional_enum(
        &row,
        &"enum_user__role".to_string(),
        &"role".to_string(),
        &roles(),
        "role",
    );
    assert!(matches!(r2, Err(OrmError::DecodeError(c)) if c == "role"));
}

#[test]
fn test_required_enum_rejects_null_naming_column() {
    let row = sample_row();
    let r = decode_required_enum(
        &row,
        &"enum_user__optional_role".to_string(),
        &"optional_role".to_string(),
        &roles(),
        "optional_role",
    );
    assert!(matches!(r, Err(OrmError::DecodeError(c)) if c == "optional_role"));
}

#[test]
fn test_scalar_value_readers() {
    assert_eq!(value_as_i64(&Value::Int(42), "age").unwrap(), 42);
    assert_eq!(value_as_i64(&Value::Bool(true), "active").unwrap(), 1);
    assert_eq!(value_as_i64(&Value::Bool(false), "active").unwrap(), 0);
    assert!(matches!(
        value_as_i64(&Value::text("x"), "age"),
        Err(OrmError::DecodeError(c)) if c == "age"
    ));
    assert_eq!(value_as_text(&Value::text("hi"), "name").unwrap(), "hi");
    assert!(matches!(
        value_as_text(&Value::Int(1), "name"),
        Err(OrmError::DecodeError(c)) if c == "name"
    ));
}

#[test]
fn test_require_one_distinguishes_empty_from_first() {
    let none: Vec<i64> = vec![];
    assert!(matches!(require_one(none), Err(OrmError::NotFoundError)));
    assert_eq!(require_one(vec![7, 8]).unwrap(), 7);
}
