use vstd::prelude::*;

use crate::text::views;

verus! {

/// The value of the `arguments` field of a call, as far as the executor
/// reads it.
pub enum ArgValue {
    /// A JSON string.
    Str(String),
    /// A JSON array: each element's string, or `None` where it is no string.
    Array(Vec<Option<String>>),
    /// Any other JSON value (null, a boolean, a number, an object).
    Other,
}

/// The parameters a skill tool is called with, as far as the executor
/// reads them.
pub enum ToolArgs {
    /// A JSON object, with the value of its `arguments` field if it has one.
    Object(Option<ArgValue>),
    /// A JSON string.
    Str(String),
    /// Any other JSON value.
    Other,
}

/// The positional arguments that a value of `arguments` gives: a string is
/// one argument; an array gives one per element, the empty string for an
/// element that is no string; anything else gives none.
pub open spec fn value_args(v: ArgValue) -> Seq<Seq<char>> {
    match v {
        ArgValue::Str(s) => seq![s@],
        ArgValue::Array(items) => items@.map_values(
            |o: Option<String>|
                match o {
                    Some(s) => s@,
                    None => Seq::<char>::empty(),
                },
        ),
        ArgValue::Other => Seq::empty(),
    }
}

/// The positional arguments of a call: those of its `arguments` field, or
/// the call itself where it is a bare string.
pub open spec fn positional_spec(args: ToolArgs) -> Seq<Seq<char>> {
    match args {
        ToolArgs::Object(Some(v)) => value_args(v),
        ToolArgs::Object(None) => Seq::empty(),
        ToolArgs::Str(s) => seq![s@],
        ToolArgs::Other => Seq::empty(),
    }
}

fn value_positional(v: &ArgValue) -> (r: Vec<String>)
    ensures
        views(r@) == value_args(*v),
{
    let mut r: Vec<String> = Vec::new();
    match v {
        ArgValue::Str(s) => {
            r.push(s.clone());
            assert(views(r@) =~= value_args(*v));
        },
        ArgValue::Array(items) => {
            let n = items.len();
            let mut i: usize = 0;
            while i < n
                invariant
                    i <= n,
                    n == items@.len(),
                    *v == ArgValue::Array(*items),
                    views(r@) =~= value_args(*v).take(i as int),
                decreases n - i,
            {
                let a = match &items[i] {
                    Some(s) => s.clone(),
                    None => String::new(),
                };
                r.push(a);
                assert(value_args(*v).take(i + 1) =~= value_args(*v).take(i as int).push(
                    value_args(*v)[i as int],
                ));
                i = i + 1;
            }
            assert(value_args(*v).take(n as int) =~= value_args(*v));
        },
        ArgValue::Other => {
            assert(views(r@) =~= value_args(*v));
        },
    }
    r
}

/// The positional arguments of a call, as `positional_spec` says.
pub fn positional_args(args: &ToolArgs) -> (r: Vec<String>)
    ensures
        views(r@) == positional_spec(*args),
{
    match args {
        ToolArgs::Object(Some(v)) => value_positional(v),
        ToolArgs::Object(None) => {
            let r: Vec<String> = Vec::new();
            assert(views(r@) =~= positional_spec(*args));
            r
        },
        ToolArgs::Str(s) => {
            let mut r: Vec<String> = Vec::new();
            r.push(s.clone());
            assert(views(r@) =~= positional_spec(*args));
            r
        },
        ToolArgs::Other => {
            let r: Vec<String> = Vec::new();
            assert(views(r@) =~= positional_spec(*args));
            r
        },
    }
}

} // verus!

verus! {

/// An `arguments` array gives one positional argument per element, in
/// order: the element's string, or the empty string where it is no string.
pub proof fn law_array_gives_one_argument_per_element(items: Vec<Option<String>>)
    ensures
        value_args(ArgValue::Array(items)).len() == items@.len(),
        forall|i: int|
            0 <= i < items@.len() ==> #[trigger] value_args(ArgValue::Array(items))[i] == (match items@[i] {
                Some(s) => s@,
                None => Seq::<char>::empty(),
            }),
{
}

/// How each form of call gives its positional arguments: a bare string is
/// the one argument; an object gives those of its `arguments` field (none
/// without one); a string field is the one argument; any other value gives
/// none.
pub proof fn law_call_forms(s: String, v: ArgValue)
    ensures
        positional_spec(ToolArgs::Str(s)) == seq![s@],
        positional_spec(ToolArgs::Object(Some(v))) == value_args(v),
        positional_spec(ToolArgs::Object(None)) == Seq::<Seq<char>>::empty(),
        positional_spec(ToolArgs::Other) == Seq::<Seq<char>>::empty(),
        value_args(ArgValue::Str(s)) == seq![s@],
        value_args(ArgValue::Other) == Seq::<Seq<char>>::empty(),
{
}

} // verus!
