//! Decoding fetched rows: a row is an ordered list of named plain values.
//! Every field lookup first tries the alias-qualified column name and then
//! falls back to the bare name, so one decoding routine serves aliased and
//! non-aliased queries alike. Enum-typed columns are stored as variant
//! strings; an unrecognized string is a decode error naming the column,
//! while an absent value of a nullable column is simply absent.

use vstd::prelude::*;
use crate::error::OrmError;
use crate::value::{Value, ValueModel};

verus! {

/// One fetched row: column names paired with their plain values, in
/// result order.
#[derive(Debug)]
pub struct DbRow {
    pub fields: Vec<(String, Value)>,
}

/// The first value stored under `key`, if any.
pub open spec fn spec_row_get(
    fields: Seq<(Seq<char>, ValueModel)>,
    key: Seq<char>,
) -> Option<ValueModel>
    decreases fields.len(),
{
    if fields.len() == 0 {
        None
    } else if fields[0].0 == key {
        Some(fields[0].1)
    } else {
        spec_row_get(fields.drop_first(), key)
    }
}

/// The dual lookup: the alias-qualified name first, the bare column name
/// as the fallback.
pub open spec fn spec_dual_get(
    fields: Seq<(Seq<char>, ValueModel)>,
    qualified: Seq<char>,
    bare: Seq<char>,
) -> Option<ValueModel> {
    match spec_row_get(fields, qualified) {
        Some(v) => Some(v),
        None => spec_row_get(fields, bare),
    }
}

impl DbRow {
    /// A row with no fields.
    pub fn new() -> (r: Self)
        ensures
            r.fields@.len() == 0,
    {
        DbRow { fields: Vec::new() }
    }

    /// Appends one named value.
    pub fn push_field(&mut self, name: &str, value: Value)
        ensures
            final(self).fields.deep_view() == old(self).fields.deep_view().push(
                (name@, value@),
            ),
    {
        let ghost pre = self.fields@;
        let ghost v = value@;
        self.fields.push((String::from_str(name), value));
        proof {
            assert forall|i: int| 0 <= i < self.fields@.len() implies self.fields.deep_view()[i]
                == old(self).fields.deep_view().push((name@, v))[i] by {
                assert(self.fields.deep_view()[i] == self.fields@[i].deep_view());
                if i < pre.len() {
                    assert(self.fields@[i] == pre[i]);
                    assert(old(self).fields.deep_view()[i] == pre[i].deep_view());
                }
            }
            assert(self.fields.deep_view() =~= old(self).fields.deep_view().push((name@, v)));
        }
    }

    /// The first value stored under `key`, copied out.
    pub fn get(&self, key: &String) -> (r: Option<Value>)
        ensures
            match r {
                Some(v) => spec_row_get(self.fields.deep_view(), key@) == Some(v@),
                None => spec_row_get(self.fields.deep_view(), key@) is None,
            },
    {
        let mut i: usize = 0;
        proof {
            assert(self.fields.deep_view().skip(0) =~= self.fields.deep_view());
        }
        while i < self.fields.len()
            invariant
                0 <= i <= self.fields@.len(),
                spec_row_get(self.fields.deep_view(), key@) == spec_row_get(
                    self.fields.deep_view().skip(i as int),
                    key@,
                ),
            decreases self.fields@.len() - i,
        {
            let ghost rest = self.fields.deep_view().skip(i as int);
            proof {
                assert(rest[0] == self.fields.deep_view()[i as int]);
                assert(self.fields.deep_view()[i as int] == self.fields@[i as int].deep_view());
                assert(rest.drop_first() =~= self.fields.deep_view().skip(i + 1));
            }
            if self.fields[i].0 == *key {
                return Some(self.fields[i].1.clone());
            }
            i = i + 1;
        }
        proof {
            assert(self.fields.deep_view().skip(self.fields@.len() as int) =~= Seq::<
                (Seq<char>, ValueModel),
            >::empty());
        }
        None
    }

    /// Looks a column up under its alias-qualified name, falling back to
    /// the bare name; this dual lookup is attempted on every decode, so
    /// the same routine serves aliased and non-aliased queries.
    pub fn get_with_fallback(&self, qualified: &String, bare: &String) -> (r: Option<Value>)
        ensures
            match r {
                Some(v) => spec_dual_get(self.fields.deep_view(), qualified@, bare@) == Some(v@),
                None => spec_dual_get(self.fields.deep_view(), qualified@, bare@) is None,
            },
    {
        match self.get(qualified) {
            Some(v) => Some(v),
            None => self.get(bare),
        }
    }
}

/// The position of the first variant spelled `x`, if any.
pub open spec fn spec_variant_index(vs: Seq<Seq<char>>, x: Seq<char>) -> Option<int>
    decreases vs.len(),
{
    if vs.len() == 0 {
        None
    } else if vs[0] == x {
        Some(0)
    } else {
        match spec_variant_index(vs.drop_first(), x) {
            Some(i) => Some(i + 1),
            None => None,
        }
    }
}

/// Finds the position of the first variant spelled `x`.
fn variant_index(variants: &Vec<String>, x: &String) -> (r: Option<usize>)
    ensures
        match r {
            Some(i) => spec_variant_index(variants.deep_view(), x@) == Some(i as int) && i
                < variants@.len(),
            None => spec_variant_index(variants.deep_view(), x@) is None,
        },
{
    let mut i: usize = 0;
    proof {
        lemma_variant_index_skip(variants.deep_view(), x@, 0);
    }
    while i < variants.len()
        invariant
            0 <= i <= variants@.len(),
            forall|j: int| 0 <= j < i ==> variants.deep_view()[j] != x@,
            spec_variant_index_from(variants.deep_view(), x@, i as int) == spec_variant_index(
                variants.deep_view(),
                x@,
            ),
        decreases variants@.len() - i,
    {
        let ghost vs = variants.deep_view();
        proof {
            assert(vs.skip(i as int)[0] == vs[i as int]);
            assert(vs[i as int] == variants@[i as int]@);
            assert(vs.skip(i as int).drop_first() =~= vs.skip(i + 1));
        }
        if variants[i] == *x {
            return Some(i);
        }
        i = i + 1;
    }
    proof {
        assert(variants.deep_view().skip(variants@.len() as int) =~= Seq::<Seq<char>>::empty());
    }
    None
}

/// The first-match position, counted from position `from` onward.
pub open spec fn spec_variant_index_from(vs: Seq<Seq<char>>, x: Seq<char>, from: int) -> Option<
    int,
>
    recommends
        0 <= from <= vs.len(),
{
    match spec_variant_index(vs.skip(from), x) {
        Some(i) => Some(from + i),
        None => None,
    }
}

/// Searching from the start is the plain search.
proof fn lemma_variant_index_skip(vs: Seq<Seq<char>>, x: Seq<char>, from: int)
    requires
        from == 0,
    ensures
        spec_variant_index_from(vs, x, 0) == spec_variant_index(vs, x),
{
    assert(vs.skip(0) =~= vs);
}

/// Decodes a nullable enum-typed column: an absent or NULL value is the
/// absent representation, never an error; a variant string is its
/// position; anything else, including an unrecognized string, is a
/// decode error naming the column.
pub fn decode_optional_enum(
    row: &DbRow,
    qualified: &String,
    bare: &String,
    variants: &Vec<String>,
    column: &str,
) -> (r: Result<Option<usize>, OrmError>)
    ensures
        match spec_dual_get(row.fields.deep_view(), qualified@, bare@) {
            None => r == Result::<Option<usize>, OrmError>::Ok(None),
            Some(v) => match v {
                ValueModel::Null => r == Result::<Option<usize>, OrmError>::Ok(None),
                ValueModel::Text(s) => match spec_variant_index(variants.deep_view(), s) {
                    Some(i) => r matches Ok(o) && o matches Some(ix) && ix == i,
                    None => r matches Err(e) && e@ == crate::error::ErrorModel::DecodeError(
                        column@,
                    ),
                },
                _ => r matches Err(e) && e@ == crate::error::ErrorModel::DecodeError(column@),
            },
        },
{
    match row.get_with_fallback(qualified, bare) {
        None => Ok(None),
        Some(v) => match v {
            Value::Null => Ok(None),
            Value::Text(s) => match variant_index(variants, &s) {
                Some(i) => Ok(Some(i)),
                None => Err(OrmError::DecodeError(String::from_str(column))),
            },
            _ => Err(OrmError::DecodeError(String::from_str(column))),
        },
    }
}

/// Decodes a required enum-typed column: a variant string is its
/// position; an absent or NULL value, an unrecognized string, or a
/// non-text value is a decode error naming the column.
pub fn decode_required_enum(
    row: &DbRow,
    qualified: &String,
    bare: &String,
    variants: &Vec<String>,
    column: &str,
) -> (r: Result<usize, OrmError>)
    ensures
        match spec_dual_get(row.fields.deep_view(), qualified@, bare@) {
            Some(ValueModel::Text(s)) => match spec_variant_index(variants.deep_view(), s) {
                Some(i) => r matches Ok(ix) && ix == i,
                None => r matches Err(e) && e@ == crate::error::ErrorModel::DecodeError(column@),
            },
            _ => r matches Err(e) && e@ == crate::error::ErrorModel::DecodeError(column@),
        },
{
    match row.get_with_fallback(qualified, bare) {
        Some(v) => match v {
            Value::Text(s) => match variant_index(variants, &s) {
                Some(i) => Ok(i),
                None => Err(OrmError::DecodeError(String::from_str(column))),
            },
            _ => Err(OrmError::DecodeError(String::from_str(column))),
        },
        None => Err(OrmError::DecodeError(String::from_str(column))),
    }
}

/// Reads an integer column value; booleans decode as 0 or 1. Anything
/// else is a decode error naming the column.
pub fn value_as_i64(v: &Value, column: &str) -> (r: Result<i64, OrmError>)
    ensures
        match v@ {
            ValueModel::Int(i) => r matches Ok(x) && x == i,
            ValueModel::Bool(b) => r matches Ok(x) && x == (if b {
                1int
            } else {
                0int
            }),
            _ => r matches Err(e) && e@ == crate::error::ErrorModel::DecodeError(column@),
        },
{
    match v {
        Value::Int(i) => Ok(*i),
        Value::Bool(b) => Ok(
            if *b {
                1
            } else {
                0
            },
        ),
        _ => Err(OrmError::DecodeError(String::from_str(column))),
    }
}

/// Reads a text column value. Anything else is a decode error naming the
/// column.
pub fn value_as_text(v: &Value, column: &str) -> (r: Result<String, OrmError>)
    ensures
        match v@ {
            ValueModel::Text(s) => r matches Ok(x) && x@ == s,
            _ => r matches Err(e) && e@ == crate::error::ErrorModel::DecodeError(column@),
        },
{
    match v {
        Value::Text(s) => Ok(s.clone()),
        _ => Err(OrmError::DecodeError(String::from_str(column))),
    }
}

/// Demands exactly one row: zero rows is the not-found error, distinct
/// from an empty sequence result, which is success elsewhere. More than
/// one row yields the first.
pub fn require_one<T>(rows: Vec<T>) -> (r: Result<T, OrmError>)
    ensures
        rows@.len() == 0 ==> (r matches Err(e) && e@
            == crate::error::ErrorModel::NotFoundError),
        rows@.len() > 0 ==> (r matches Ok(x) && x == rows@[0]),
{
    let mut rows = rows;
    if rows.len() == 0 {
        Err(OrmError::NotFoundError)
    } else {
        Ok(rows.remove(0))
    }
}

} // verus!
