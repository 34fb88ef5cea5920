//! The plain value model for positional SQL arguments and decoded row
//! fields: null, integer, boolean or text. Values of backend-specific
//! types (timestamps, identifiers, enumerations) travel as their string
//! serialization, which is how the row decoders receive them as well.

use vstd::prelude::*;

verus! {

/// A positional SQL argument or a decoded column value.
#[derive(Debug)]
pub enum Value {
    /// SQL NULL.
    Null,
    /// An integer value.
    Int(i64),
    /// A boolean value.
    Bool(bool),
    /// A text value; richer types travel as their string serialization.
    Text(String),
}

/// The mathematical model of a [`Value`].
pub enum ValueModel {
    Null,
    Int(int),
    Bool(bool),
    Text(Seq<char>),
}

impl View for Value {
    type V = ValueModel;

    open spec fn view(&self) -> ValueModel {
        match self {
            Value::Null => ValueModel::Null,
            Value::Int(i) => ValueModel::Int(*i as int),
            Value::Bool(b) => ValueModel::Bool(*b),
            Value::Text(s) => ValueModel::Text(s@),
        }
    }
}

impl DeepView for Value {
    type V = ValueModel;

    open spec fn deep_view(&self) -> ValueModel {
        self.view()
    }
}

impl Clone for Value {
    /// Cloning keeps the modeled value.
    fn clone(&self) -> (r: Self)
        ensures
            r@ == self@,
    {
        match self {
            Value::Null => Value::Null,
            Value::Int(i) => Value::Int(*i),
            Value::Bool(b) => Value::Bool(*b),
            Value::Text(s) => Value::Text(s.clone()),
        }
    }
}

impl Value {
    /// A text value owning a copy of `s`.
    pub fn text(s: &str) -> (r: Value)
        ensures
            r@ == ValueModel::Text(s@),
    {
        Value::Text(String::from_str(s))
    }
}

/// Appends a copy of `v`, extending the modeled argument list by its model.
pub fn push_value(args: &mut Vec<Value>, v: &Value)
    ensures
        final(args)@.len() == old(args)@.len() + 1,
        final(args).deep_view() == old(args).deep_view().push(v@),
        final(args)@.len() == final(args).deep_view().len(),
        old(args)@.len() == old(args).deep_view().len(),
{
    let ghost pre = args@;
    args.push(v.clone());
    proof {
        assert(args.deep_view().len() == args@.len());
        assert forall|i: int| 0 <= i < args@.len() implies args.deep_view()[i] == old(
            args,
        ).deep_view().push(v@)[i] by {
            assert(args.deep_view()[i] == args@[i].deep_view());
            if i < pre.len() {
                assert(args@[i] == pre[i]);
                assert(old(args).deep_view()[i] == pre[i].deep_view());
            } else {
                assert(args@[i]@ == v@);
            }
        }
        assert(args.deep_view() =~= old(args).deep_view().push(v@));
    }
}

} // verus!
