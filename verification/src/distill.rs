//! Leaf distillers: per-type coercion from an optional document value,
//! with the absent / present-but-null distinction kept observable.

use vstd::prelude::*;

use crate::errors::entry_view;
use crate::errors::Error;
use crate::errors::ErrorView;
use crate::value::opt_value_view;
use crate::value::Value;
use crate::value::ValueView;

verus! {

/// A type distillable from an optional document value.
///
/// `distill(None)` is a lookup that found the key absent; an explicit
/// null arrives as `Some(Value::Null)` and is not the same thing.
pub trait Distilled: Sized {
    /// Whether distillation succeeds on this input.
    spec fn ok_model(v: Option<ValueView>) -> bool;

    /// The error reported when distillation fails on this input.
    spec fn err_model(v: Option<ValueView>) -> ErrorView;

    /// Relates an input to the value distilled from it on success.
    spec fn val_model(v: Option<ValueView>, r: Self) -> bool;

    fn distill(value: Option<&Value>) -> (r: Result<Self, Error>)
        ensures
            r is Ok <==> Self::ok_model(opt_value_view(value)),
            r matches Ok(x) ==> Self::val_model(opt_value_view(value), x),
            r matches Err(e) ==> e@ == Self::err_model(opt_value_view(value)),
    ;
}

impl Distilled for () {
    /// Absent or explicitly null both mean unit.
    open spec fn ok_model(v: Option<ValueView>) -> bool {
        v is None || v == Some(ValueView::Null)
    }

    open spec fn err_model(v: Option<ValueView>) -> ErrorView {
        entry_view("wrong_type"@)
    }

    open spec fn val_model(v: Option<ValueView>, r: Self) -> bool {
        true
    }

    fn distill(value: Option<&Value>) -> (r: Result<Self, Error>) {
        match value {
            None => Ok(()),
            Some(Value::Null) => Ok(()),
            Some(_) => Err(Error::entry("wrong_type")),
        }
    }
}

impl Distilled for String {
    /// A string must be present and string-shaped.
    open spec fn ok_model(v: Option<ValueView>) -> bool {
        v matches Some(ValueView::Str(_))
    }

    open spec fn err_model(v: Option<ValueView>) -> ErrorView {
        if v is None {
            entry_view("missing_field"@)
        } else {
            entry_view("wrong_type"@)
        }
    }

    open spec fn val_model(v: Option<ValueView>, r: Self) -> bool {
        v matches Some(ValueView::Str(s)) && r@ == s
    }

    fn distill(value: Option<&Value>) -> (r: Result<Self, Error>) {
        match value {
            None => Err(Error::entry("missing_field")),
            Some(Value::Str(s)) => Ok(s.clone()),
            Some(_) => Err(Error::entry("wrong_type")),
        }
    }
}

impl Distilled for u32 {
    /// An unsigned integer must be present, integral, and within the
    /// unsigned 32-bit range.
    open spec fn ok_model(v: Option<ValueView>) -> bool {
        v matches Some(ValueView::Int(n)) && 0 <= n <= u32::MAX
    }

    open spec fn err_model(v: Option<ValueView>) -> ErrorView {
        if v is None {
            entry_view("missing_field"@)
        } else {
            entry_view("wrong_type"@)
        }
    }

    open spec fn val_model(v: Option<ValueView>, r: Self) -> bool {
        v matches Some(ValueView::Int(n)) && r == n
    }

    fn distill(value: Option<&Value>) -> (r: Result<Self, Error>) {
        match value {
            None => Err(Error::entry("missing_field")),
            Some(Value::Int(n)) => {
                if *n >= 0 && *n <= u32::MAX as i64 {
                    Ok(*n as u32)
                } else {
                    Err(Error::entry("wrong_type"))
                }
            },
            Some(_) => Err(Error::entry("wrong_type")),
        }
    }
}

impl<T: Distilled> Distilled for Option<T> {
    /// An absent key is success with no value; a present one — even an
    /// explicit null — is handed to the inner distiller unchanged.
    open spec fn ok_model(v: Option<ValueView>) -> bool {
        match v {
            None => true,
            Some(vv) => T::ok_model(Some(vv)),
        }
    }

    open spec fn err_model(v: Option<ValueView>) -> ErrorView {
        T::err_model(v)
    }

    open spec fn val_model(v: Option<ValueView>, r: Self) -> bool {
        match v {
            None => r is None,
            Some(vv) => r matches Some(x) && T::val_model(Some(vv), x),
        }
    }

    fn distill(value: Option<&Value>) -> (r: Result<Self, Error>) {
        match value {
            None => Ok(None),
            Some(v) => match T::distill(Some(v)) {
                Ok(x) => Ok(Some(x)),
                Err(e) => Err(e),
            },
        }
    }
}

} // verus!
