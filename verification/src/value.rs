//! The document model: a JSON-style value, together with its
//! mathematical view used throughout the contracts.

use vstd::prelude::*;

verus! {

/// A semi-structured input document: null, boolean, integer, string,
/// ordered array, or ordered string-keyed map.
#[derive(Debug, PartialEq)]
pub enum Value {
    Null,
    Bool(bool),
    Int(i64),
    Str(String),
    Arr(Vec<Value>),
    Obj(Vec<(String, Value)>),
}

/// Mathematical model of a `Value`.
#[verifier::ext_equal]
pub enum ValueView {
    Null,
    Bool(bool),
    Int(int),
    Str(Seq<char>),
    Arr(Seq<ValueView>),
    Obj(Seq<(Seq<char>, ValueView)>),
}

pub open spec fn value_view(v: Value) -> ValueView
    decreases v,
{
    match v {
        Value::Null => ValueView::Null,
        Value::Bool(b) => ValueView::Bool(b),
        Value::Int(n) => ValueView::Int(n as int),
        Value::Str(s) => ValueView::Str(s@),
        Value::Arr(items) => ValueView::Arr(values_view(items@)),
        Value::Obj(entries) => ValueView::Obj(entries_view(entries@)),
    }
}

pub open spec fn values_view(s: Seq<Value>) -> Seq<ValueView>
    decreases s,
{
    if s.len() == 0 {
        Seq::empty()
    } else {
        seq![value_view(s[0])] + values_view(s.drop_first())
    }
}

pub open spec fn entries_view(s: Seq<(String, Value)>) -> Seq<(Seq<char>, ValueView)>
    decreases s,
{
    if s.len() == 0 {
        Seq::empty()
    } else {
        seq![(s[0].0@, value_view(s[0].1))] + entries_view(s.drop_first())
    }
}

impl View for Value {
    type V = ValueView;

    open spec fn view(&self) -> ValueView {
        value_view(*self)
    }
}

/// The model of an optional reference to a value: `None` for an absent
/// key or index, `Some` for a present one.
pub open spec fn opt_value_view(v: Option<&Value>) -> Option<ValueView> {
    match v {
        Some(x) => Some(x@),
        None => None,
    }
}

/// First entry of `entries` whose key equals `name`, if any.
pub open spec fn obj_lookup_view(
    entries: Seq<(Seq<char>, ValueView)>,
    name: Seq<char>,
) -> Option<ValueView>
    decreases entries.len(),
{
    if entries.len() == 0 {
        None
    } else if entries[0].0 == name {
        Some(entries[0].1)
    } else {
        obj_lookup_view(entries.drop_first(), name)
    }
}

/// Lookup by key: defined on maps, absent everywhere else.
pub open spec fn lookup_key_view(v: ValueView, name: Seq<char>) -> Option<ValueView> {
    match v {
        ValueView::Obj(entries) => obj_lookup_view(entries, name),
        _ => None,
    }
}

/// Lookup by position: defined on arrays, absent everywhere else.
pub open spec fn lookup_index_view(v: ValueView, i: int) -> Option<ValueView> {
    match v {
        ValueView::Arr(items) => if 0 <= i < items.len() {
            Some(items[i])
        } else {
            None
        },
        _ => None,
    }
}

pub proof fn lemma_values_view(s: Seq<Value>)
    ensures
        values_view(s).len() == s.len(),
        forall|i: int| 0 <= i < s.len() ==> values_view(s)[i] == value_view(s[i]),
    decreases s.len(),
{
    if s.len() > 0 {
        lemma_values_view(s.drop_first());
        assert forall|i: int| 0 <= i < s.len() implies values_view(s)[i] == value_view(s[i]) by {
            if i > 0 {
                assert(s.drop_first()[i - 1] == s[i]);
            }
        }
    }
}

pub proof fn lemma_entries_view(s: Seq<(String, Value)>)
    ensures
        entries_view(s).len() == s.len(),
        forall|i: int| 0 <= i < s.len()
            ==> entries_view(s)[i] == (s[i].0@, value_view(s[i].1)),
    decreases s.len(),
{
    if s.len() > 0 {
        lemma_entries_view(s.drop_first());
        assert forall|i: int| 0 <= i < s.len() implies entries_view(s)[i] == (
            s[i].0@,
            value_view(s[i].1),
        ) by {
            if i > 0 {
                assert(s.drop_first()[i - 1] == s[i]);
            }
        }
    }
}

impl Value {
    /// Lookup by key on a map-shaped value; `None` means the key is
    /// absent, `Some(Value::Null)` that it is present and explicitly null.
    pub fn lookup_key<'a>(&'a self, name: &String) -> (r: Option<&'a Value>)
        ensures
            opt_value_view(r) == lookup_key_view(self@, name@),
    {
        match self {
            Value::Obj(entries) => {
                proof {
                    lemma_entries_view(entries@);
                }
                let ghost evs = entries_view(entries@);
                proof {
                    assert(evs.skip(0) =~= evs);
                }
                let mut i: usize = 0;
                while i < entries.len()
                    invariant
                        i <= entries.len(),
                        evs == entries_view(entries@),
                        evs.len() == entries@.len(),
                        forall|j: int| 0 <= j < entries@.len()
                            ==> evs[j] == (entries@[j].0@, value_view(entries@[j].1)),
                        lookup_key_view(value_view(*self), name@)
                            == obj_lookup_view(evs.skip(i as int), name@),
                        value_view(*self) == ValueView::Obj(evs),
                    decreases entries.len() - i,
                {
                    if entries[i].0 == *name {
                        proof {
                            assert(evs.skip(i as int)[0] == evs[i as int]);
                        }
                        return Some(&entries[i].1);
                    }
                    proof {
                        assert(evs.skip(i as int).drop_first() =~= evs.skip(i as int + 1));
                        assert(evs.skip(i as int)[0] == evs[i as int]);
                    }
                    i = i + 1;
                }
                proof {
                    assert(evs.skip(i as int).len() == 0);
                }
                None
            },
            _ => None,
        }
    }

    /// A structurally equal copy of the value.
    #[verifier::loop_isolation(false)]
    pub fn deep_clone(&self) -> (r: Value)
        ensures
            r@ == self@,
        decreases *self,
    {
        match self {
            Value::Null => Value::Null,
            Value::Bool(b) => Value::Bool(*b),
            Value::Int(n) => Value::Int(*n),
            Value::Str(s) => Value::Str(s.clone()),
            Value::Arr(items) => {
                let mut out: Vec<Value> = Vec::new();
                let mut i: usize = 0;
                while i < items.len()
                    invariant
                        i <= items.len(),
                        out@.len() == i,
                        forall|j: int| 0 <= j < i
                            ==> value_view(out@[j]) == value_view(items@[j]),
                    decreases items.len() - i,
                {
                    proof {
                        broadcast use vstd::std_specs::vec::axiom_vec_index_decreases;
                        assert(decreases_to!(*items => items@[i as int]));
                        assert(decreases_to!(*self => items@[i as int]));
                    }
                    out.push(items[i].deep_clone());
                    i = i + 1;
                }
                proof {
                    lemma_values_view(out@);
                    lemma_values_view(items@);
                    assert(values_view(out@) =~= values_view(items@));
                }
                Value::Arr(out)
            },
            Value::Obj(entries) => {
                let mut out: Vec<(String, Value)> = Vec::new();
                let mut i: usize = 0;
                while i < entries.len()
                    invariant
                        i <= entries.len(),
                        out@.len() == i,
                        forall|j: int| 0 <= j < i
                            ==> out@[j].0@ == entries@[j].0@ && value_view(out@[j].1)
                                == value_view(entries@[j].1),
                    decreases entries.len() - i,
                {
                    proof {
                        broadcast use vstd::std_specs::vec::axiom_vec_index_decreases;
                        assert(decreases_to!(*entries => entries@[i as int]));
                        assert(decreases_to!(*self => entries@[i as int].1));
                    }
                    out.push((entries[i].0.clone(), entries[i].1.deep_clone()));
                    i = i + 1;
                }
                proof {
                    lemma_entries_view(out@);
                    lemma_entries_view(entries@);
                    assert(entries_view(out@) =~= entries_view(entries@));
                }
                Value::Obj(out)
            },
        }
    }

    /// Lookup by position on an array-shaped value; `None` means the
    /// position is out of range.
    pub fn lookup_index<'a>(&'a self, i: usize) -> (r: Option<&'a Value>)
        ensures
            opt_value_view(r) == lookup_index_view(self@, i as int),
    {
        match self {
            Value::Arr(items) => {
                proof {
                    lemma_values_view(items@);
                }
                if i < items.len() {
                    Some(&items[i])
                } else {
                    None
                }
            },
            _ => None,
        }
    }
}

} // verus!
