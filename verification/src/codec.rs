//! Serializing an error tree into the document model and parsing it
//! back: a leaf failure becomes a map holding `code` and `params`, named
//! failures a map from field name to subtree, positional failures an
//! array of position/subtree pairs. Parsing undoes serializing exactly.

use vstd::prelude::*;

use crate::errors::lemma_indexed_errors_view;
use crate::errors::lemma_indexed_errors_view_push;
use crate::errors::lemma_named_errors_view;
use crate::errors::lemma_named_errors_view_push;
use crate::errors::indexed_errors_view;
use crate::errors::named_errors_view;
use crate::errors::EntryView;
use crate::errors::Error;
use crate::errors::ErrorEntry;
use crate::errors::ErrorView;
use crate::value::entries_view;
use crate::value::lemma_entries_view;
use crate::value::lemma_values_view;
use crate::value::value_view;
use crate::value::values_view;
use crate::value::Value;
use crate::value::ValueView;

verus! {

/// Whether an encoded object is the encoding of a leaf failure: exactly
/// a string `code` and a map `params`. A named-failure encoding never
/// has this shape, because every subtree encodes as a map or an array,
/// never as a string.
pub open spec fn is_entry_encoding(entries: Seq<(Seq<char>, ValueView)>) -> bool {
    &&& entries.len() == 2
    &&& entries[0].0 == "code"@
    &&& entries[1].0 == "params"@
    &&& entries[0].1 is Str
    &&& entries[1].1 is Obj
}

/// The document encoding of an error tree.
pub open spec fn encode_error(e: ErrorView) -> ValueView
    decreases e,
{
    match e {
        ErrorView::Entry(en) => ValueView::Obj(
            seq![("code"@, ValueView::Str(en.code)), ("params"@, ValueView::Obj(en.params))],
        ),
        ErrorView::Struct(fields) => ValueView::Obj(encode_named(fields)),
        ErrorView::List(items) => ValueView::Arr(encode_indexed(items)),
    }
}

pub open spec fn encode_named(fields: Seq<(Seq<char>, ErrorView)>) -> Seq<(Seq<char>, ValueView)>
    decreases fields,
{
    if fields.len() == 0 {
        Seq::empty()
    } else {
        seq![(fields[0].0, encode_error(fields[0].1))] + encode_named(fields.drop_first())
    }
}

pub open spec fn encode_indexed(items: Seq<(int, ErrorView)>) -> Seq<ValueView>
    decreases items,
{
    if items.len() == 0 {
        Seq::empty()
    } else {
        seq![ValueView::Arr(seq![ValueView::Int(items[0].0), encode_error(items[0].1)])]
            + encode_indexed(items.drop_first())
    }
}

/// The error tree a document value encodes, if any.
pub open spec fn decode_error(v: ValueView) -> Option<ErrorView>
    decreases v,
{
    match v {
        ValueView::Obj(entries) => {
            if is_entry_encoding(entries) {
                match (entries[0].1, entries[1].1) {
                    (ValueView::Str(c), ValueView::Obj(ps)) => Some(
                        ErrorView::Entry(EntryView { code: c, params: ps }),
                    ),
                    _ => None,
                }
            } else {
                match decode_named(entries) {
                    Some(fs) => Some(ErrorView::Struct(fs)),
                    None => None,
                }
            }
        },
        ValueView::Arr(items) => match decode_indexed(items) {
            Some(is) => Some(ErrorView::List(is)),
            None => None,
        },
        _ => None,
    }
}

pub open spec fn decode_named(entries: Seq<(Seq<char>, ValueView)>) -> Option<
    Seq<(Seq<char>, ErrorView)>,
>
    decreases entries,
{
    if entries.len() == 0 {
        Some(Seq::empty())
    } else {
        match decode_error(entries[0].1) {
            Some(e) => match decode_named(entries.drop_first()) {
                Some(rest) => Some(seq![(entries[0].0, e)] + rest),
                None => None,
            },
            None => None,
        }
    }
}

pub open spec fn decode_indexed(items: Seq<ValueView>) -> Option<Seq<(int, ErrorView)>>
    decreases items,
{
    if items.len() == 0 {
        Some(Seq::empty())
    } else {
        match items[0] {
            ValueView::Arr(pair) => {
                if pair.len() == 2 {
                    match pair[0] {
                        ValueView::Int(n) => {
                            if 0 <= n <= usize::MAX {
                                match decode_error(pair[1]) {
                                    Some(e) => match decode_indexed(items.drop_first()) {
                                        Some(rest) => Some(seq![(n, e)] + rest),
                                        None => None,
                                    },
                                    None => None,
                                }
                            } else {
                                None
                            }
                        },
                        _ => None,
                    }
                } else {
                    None
                }
            },
            _ => None,
        }
    }
}

/// Whether every positional key in the tree fits the document model's
/// machine integers, so that the tree survives encoding.
pub open spec fn error_bounded(e: ErrorView) -> bool
    decreases e,
{
    match e {
        ErrorView::Entry(_) => true,
        ErrorView::Struct(fields) => named_bounded(fields),
        ErrorView::List(items) => indexed_bounded(items),
    }
}

pub open spec fn named_bounded(fields: Seq<(Seq<char>, ErrorView)>) -> bool
    decreases fields,
{
    if fields.len() == 0 {
        true
    } else {
        error_bounded(fields[0].1) && named_bounded(fields.drop_first())
    }
}

pub open spec fn indexed_bounded(items: Seq<(int, ErrorView)>) -> bool
    decreases items,
{
    if items.len() == 0 {
        true
    } else {
        &&& 0 <= items[0].0 <= usize::MAX
        &&& items[0].0 <= i64::MAX
        &&& error_bounded(items[0].1)
        &&& indexed_bounded(items.drop_first())
    }
}

pub proof fn lemma_encode_named_index(fields: Seq<(Seq<char>, ErrorView)>)
    ensures
        encode_named(fields).len() == fields.len(),
        forall|i: int| 0 <= i < fields.len()
            ==> encode_named(fields)[i] == (fields[i].0, encode_error(fields[i].1)),
    decreases fields.len(),
{
    if fields.len() > 0 {
        lemma_encode_named_index(fields.drop_first());
        assert forall|i: int| 0 <= i < fields.len() implies encode_named(fields)[i] == (
            fields[i].0,
            encode_error(fields[i].1),
        ) by {
            if i > 0 {
                assert(fields.drop_first()[i - 1] == fields[i]);
            }
        }
    }
}

pub proof fn lemma_encode_indexed_index(items: Seq<(int, ErrorView)>)
    ensures
        encode_indexed(items).len() == items.len(),
        forall|i: int| 0 <= i < items.len()
            ==> encode_indexed(items)[i] == ValueView::Arr(
                seq![ValueView::Int(items[i].0), encode_error(items[i].1)],
            ),
    decreases items.len(),
{
    if items.len() > 0 {
        lemma_encode_indexed_index(items.drop_first());
        assert forall|i: int| 0 <= i < items.len() implies encode_indexed(items)[i]
            == ValueView::Arr(seq![ValueView::Int(items[i].0), encode_error(items[i].1)]) by {
            if i > 0 {
                assert(items.drop_first()[i - 1] == items[i]);
            }
        }
    }
}

pub proof fn lemma_named_bounded_index(fields: Seq<(Seq<char>, ErrorView)>)
    requires
        named_bounded(fields),
    ensures
        forall|i: int| 0 <= i < fields.len() ==> error_bounded(#[trigger] fields[i].1),
    decreases fields.len(),
{
    if fields.len() > 0 {
        lemma_named_bounded_index(fields.drop_first());
        assert forall|i: int| 0 <= i < fields.len() implies error_bounded(
            #[trigger] fields[i].1,
        ) by {
            if i > 0 {
                assert(fields.drop_first()[i - 1] == fields[i]);
            }
        }
    }
}

pub proof fn lemma_indexed_bounded_index(items: Seq<(int, ErrorView)>)
    requires
        indexed_bounded(items),
    ensures
        forall|i: int| 0 <= i < items.len()
            ==> 0 <= (#[trigger] items[i]).0 <= usize::MAX && items[i].0 <= i64::MAX
                && error_bounded(items[i].1),
    decreases items.len(),
{
    if items.len() > 0 {
        lemma_indexed_bounded_index(items.drop_first());
        assert forall|i: int| 0 <= i < items.len() implies 0 <= (#[trigger] items[i]).0
            <= usize::MAX && items[i].0 <= i64::MAX && error_bounded(items[i].1) by {
            if i > 0 {
                assert(items.drop_first()[i - 1] == items[i]);
            }
        }
    }
}

/// Every encoding is a map or an array, never a string.
pub proof fn lemma_encode_shape(e: ErrorView)
    ensures
        encode_error(e) is Obj || encode_error(e) is Arr,
{
    match e {
        ErrorView::Entry(_) => {},
        ErrorView::Struct(_) => {},
        ErrorView::List(_) => {},
    }
}

/// Round trip: parsing the encoding of any error tree whose positional
/// keys fit the document's machine integers yields the tree itself.
pub proof fn lemma_decode_encode(e: ErrorView)
    requires
        error_bounded(e),
    ensures
        decode_error(encode_error(e)) == Some(e),
    decreases e,
{
    match e {
        ErrorView::Entry(en) => {
            let entries = seq![
                ("code"@, ValueView::Str(en.code)),
                ("params"@, ValueView::Obj(en.params)),
            ];
            assert(is_entry_encoding(entries));
            assert(decode_error(encode_error(e)) == Some(
                ErrorView::Entry(EntryView { code: en.code, params: en.params }),
            ));
        },
        ErrorView::Struct(fields) => {
            lemma_decode_encode_named(fields);
            let entries = encode_named(fields);
            lemma_encode_named_index(fields);
            if entries.len() == 2 {
                lemma_encode_shape(fields[0].1);
                assert(!(entries[0].1 is Str));
            }
            assert(!is_entry_encoding(entries));
        },
        ErrorView::List(items) => {
            lemma_decode_encode_indexed(items);
        },
    }
}

pub proof fn lemma_decode_encode_named(fields: Seq<(Seq<char>, ErrorView)>)
    requires
        named_bounded(fields),
    ensures
        decode_named(encode_named(fields)) == Some(fields),
    decreases fields,
{
    if fields.len() == 0 {
        assert(encode_named(fields).len() == 0);
    } else {
        lemma_decode_encode(fields[0].1);
        lemma_decode_encode_named(fields.drop_first());
        let enc = encode_named(fields);
        assert(enc[0] == (fields[0].0, encode_error(fields[0].1)));
        assert(enc.drop_first() =~= encode_named(fields.drop_first()));
        assert(seq![(fields[0].0, fields[0].1)] + fields.drop_first() =~= fields);
    }
}

pub proof fn lemma_decode_encode_indexed(items: Seq<(int, ErrorView)>)
    requires
        indexed_bounded(items),
    ensures
        decode_indexed(encode_indexed(items)) == Some(items),
    decreases items,
{
    if items.len() == 0 {
        assert(encode_indexed(items).len() == 0);
    } else {
        lemma_decode_encode(items[0].1);
        lemma_decode_encode_indexed(items.drop_first());
        let enc = encode_indexed(items);
        assert(enc[0] == ValueView::Arr(
            seq![ValueView::Int(items[0].0), encode_error(items[0].1)],
        ));
        assert(enc.drop_first() =~= encode_indexed(items.drop_first()));
        assert(seq![(items[0].0, items[0].1)] + items.drop_first() =~= items);
    }
}

impl Error {
    /// Serializes the error tree into the document model, so it can
    /// cross a process or network boundary unchanged.
    #[verifier::loop_isolation(false)]
    pub fn to_value(&self) -> (r: Value)
        requires
            error_bounded(self@),
        ensures
            r@ == encode_error(self@),
        decreases *self,
    {
        match self {
            Error::Entry(en) => {
                let mut params: Vec<(String, Value)> = Vec::new();
                let mut i: usize = 0;
                while i < en.params.len()
                    invariant
                        i <= en.params.len(),
                        params@.len() == i,
                        forall|j: int| 0 <= j < i
                            ==> params@[j].0@ == en.params@[j].0@ && value_view(params@[j].1)
                                == value_view(en.params@[j].1),
                    decreases en.params.len() - i,
                {
                    params.push((en.params[i].0.clone(), en.params[i].1.deep_clone()));
                    i = i + 1;
                }
                proof {
                    lemma_entries_view(params@);
                    lemma_entries_view(en.params@);
                    assert(entries_view(params@) =~= entries_view(en.params@));
                }
                let mut fields: Vec<(String, Value)> = Vec::new();
                fields.push(("code".to_owned(), Value::Str(en.code.clone())));
                fields.push(("params".to_owned(), Value::Obj(params)));
                proof {
                    lemma_entries_view(fields@);
                    assert(entries_view(fields@) =~= seq![
                        ("code"@, ValueView::Str(en.code@)),
                        ("params"@, ValueView::Obj(entries_view(en.params@))),
                    ]);
                }
                Value::Obj(fields)
            },
            Error::Struct(fields) => {
                proof {
                    lemma_named_errors_view(fields@);
                    lemma_named_bounded_index(named_errors_view(fields@));
                }
                let mut out: Vec<(String, Value)> = Vec::new();
                let mut i: usize = 0;
                while i < fields.len()
                    invariant
                        i <= fields.len(),
                        out@.len() == i,
                        forall|j: int| 0 <= j < i
                            ==> out@[j].0@ == fields@[j].0@ && value_view(out@[j].1)
                                == encode_error(fields@[j].1@),
                    decreases fields.len() - i,
                {
                    proof {
                        broadcast use vstd::std_specs::vec::axiom_vec_index_decreases;
                        assert(decreases_to!(*fields => fields@[i as int]));
                        assert(decreases_to!(*self => fields@[i as int].1));
                        assert(named_errors_view(fields@)[i as int].1 == fields@[i as int].1@);
                    }
                    let sub = fields[i].1.to_value();
                    out.push((fields[i].0.clone(), sub));
                    i = i + 1;
                }
                proof {
                    lemma_entries_view(out@);
                    lemma_encode_named_index(named_errors_view(fields@));
                    assert(entries_view(out@) =~= encode_named(named_errors_view(fields@)));
                }
                Value::Obj(out)
            },
            Error::List(items) => {
                proof {
                    lemma_indexed_errors_view(items@);
                    lemma_indexed_bounded_index(indexed_errors_view(items@));
                }
                let mut out: Vec<Value> = Vec::new();
                let mut i: usize = 0;
                while i < items.len()
                    invariant
                        i <= items.len(),
                        out@.len() == i,
                        forall|j: int| 0 <= j < i
                            ==> value_view(out@[j]) == ValueView::Arr(
                                seq![
                                    ValueView::Int(items@[j].0 as int),
                                    encode_error(items@[j].1@),
                                ],
                            ),
                    decreases items.len() - i,
                {
                    proof {
                        broadcast use vstd::std_specs::vec::axiom_vec_index_decreases;
                        assert(decreases_to!(*items => items@[i as int]));
                        assert(decreases_to!(*self => items@[i as int].1));
                        assert(indexed_errors_view(items@)[i as int].1 == items@[i as int].1@);
                        assert(indexed_errors_view(items@)[i as int].0 == items@[i as int].0 as int);
                    }
                    let idx = items[i].0;
                    let sub = items[i].1.to_value();
                    let mut pair: Vec<Value> = Vec::new();
                    pair.push(Value::Int(idx as i64));
                    pair.push(sub);
                    proof {
                        lemma_values_view(pair@);
                        assert(values_view(pair@) =~= seq![
                            ValueView::Int(items@[i as int].0 as int),
                            encode_error(items@[i as int].1@),
                        ]);
                    }
                    out.push(Value::Arr(pair));
                    i = i + 1;
                }
                proof {
                    lemma_values_view(out@);
                    lemma_encode_indexed_index(indexed_errors_view(items@));
                    assert(values_view(out@) =~= encode_indexed(indexed_errors_view(items@)));
                }
                Value::Arr(out)
            },
        }
    }

    /// Whether every positional key in the tree fits the document
    /// model's machine integers.
    #[verifier::loop_isolation(false)]
    pub fn is_bounded(&self) -> (r: bool)
        ensures
            r == error_bounded(self@),
        decreases *self,
    {
        match self {
            Error::Entry(_) => true,
            Error::Struct(fields) => {
                let ghost nev = named_errors_view(fields@);
                proof {
                    lemma_named_errors_view(fields@);
                    assert(nev.skip(0) =~= nev);
                }
                let mut i: usize = 0;
                while i < fields.len()
                    invariant
                        i <= fields.len(),
                        named_bounded(nev) == named_bounded(nev.skip(i as int)),
                    decreases fields.len() - i,
                {
                    proof {
                        broadcast use vstd::std_specs::vec::axiom_vec_index_decreases;
                        assert(decreases_to!(*fields => fields@[i as int]));
                        assert(decreases_to!(*self => fields@[i as int].1));
                        assert(nev.skip(i as int)[0] == nev[i as int]);
                        assert(nev.skip(i as int).drop_first() =~= nev.skip(i as int + 1));
                    }
                    if !fields[i].1.is_bounded() {
                        return false;
                    }
                    i = i + 1;
                }
                proof {
                    assert(nev.skip(fields@.len() as int) =~= Seq::<
                        (Seq<char>, ErrorView),
                    >::empty());
                }
                true
            },
            Error::List(items) => {
                let ghost iev = indexed_errors_view(items@);
                proof {
                    lemma_indexed_errors_view(items@);
                    assert(iev.skip(0) =~= iev);
                }
                let mut i: usize = 0;
                while i < items.len()
                    invariant
                        i <= items.len(),
                        indexed_bounded(iev) == indexed_bounded(iev.skip(i as int)),
                    decreases items.len() - i,
                {
                    proof {
                        broadcast use vstd::std_specs::vec::axiom_vec_index_decreases;
                        assert(decreases_to!(*items => items@[i as int]));
                        assert(decreases_to!(*self => items@[i as int].1));
                        assert(iev.skip(i as int)[0] == iev[i as int]);
                        assert(iev.skip(i as int).drop_first() =~= iev.skip(i as int + 1));
                    }
                    let idx = items[i].0;
                    let fits = match u64::try_from(idx) {
                        Ok(x) => x <= 0x7fff_ffff_ffff_ffffu64,
                        Err(_) => false,
                    };
                    if !fits {
                        return false;
                    }
                    if !items[i].1.is_bounded() {
                        return false;
                    }
                    i = i + 1;
                }
                proof {
                    assert(iev.skip(items@.len() as int) =~= Seq::<(int, ErrorView)>::empty());
                }
                true
            },
        }
    }

    /// Serializes the error tree when its positional keys fit the
    /// document model, and says when they do not.
    pub fn to_value_checked(&self) -> (r: Option<Value>)
        ensures
            match r {
                Some(v) => error_bounded(self@) && v@ == encode_error(self@),
                None => !error_bounded(self@),
            },
    {
        if self.is_bounded() {
            Some(self.to_value())
        } else {
            None
        }
    }

    /// Parses an error tree back out of the document model; `None` means
    /// the value is not the encoding of any tree.
    #[verifier::loop_isolation(false)]
    pub fn from_value(v: &Value) -> (r: Option<Error>)
        ensures
            match r {
                Some(e) => decode_error(v@) == Some(e@),
                None => decode_error(v@) is None,
            },
        decreases *v,
    {
        match v {
            Value::Obj(entries) => {
                let ghost evs = entries_view(entries@);
                proof {
                    lemma_entries_view(entries@);
                    assert(evs.skip(0) =~= evs);
                }
                let is_entry = entries.len() == 2 && {
                    let k0 = "code".to_owned();
                    let k1 = "params".to_owned();
                    entries[0].0 == k0 && entries[1].0 == k1 && matches!(
                        &entries[0].1,
                        Value::Str(_),
                    ) && matches!(&entries[1].1, Value::Obj(_))
                };
                proof {
                    assert(is_entry == is_entry_encoding(evs));
                }
                if is_entry {
                    match (&entries[0].1, &entries[1].1) {
                        (Value::Str(c), Value::Obj(ps)) => {
                            let mut params: Vec<(String, Value)> = Vec::new();
                            let mut i: usize = 0;
                            while i < ps.len()
                                invariant
                                    i <= ps.len(),
                                    params@.len() == i,
                                    forall|j: int| 0 <= j < i
                                        ==> params@[j].0@ == ps@[j].0@ && value_view(
                                            params@[j].1,
                                        ) == value_view(ps@[j].1),
                                decreases ps.len() - i,
                            {
                                params.push((ps[i].0.clone(), ps[i].1.deep_clone()));
                                i = i + 1;
                            }
                            proof {
                                lemma_entries_view(params@);
                                lemma_entries_view(ps@);
                                assert(entries_view(params@) =~= entries_view(ps@));
                            }
                            Some(Error::Entry(ErrorEntry { code: c.clone(), params }))
                        },
                        _ => {
                            proof {
                                assert(false);
                            }
                            None
                        },
                    }
                } else {
                    let mut out: Vec<(String, Error)> = Vec::new();
                    let mut i: usize = 0;
                    while i < entries.len()
                        invariant
                            i <= entries.len(),
                            match decode_named(evs.skip(i as int)) {
                                Some(rest) => decode_named(evs) == Some(
                                    named_errors_view(out@) + rest,
                                ),
                                None => decode_named(evs) is None,
                            },
                        decreases entries.len() - i,
                    {
                        proof {
                            broadcast use vstd::std_specs::vec::axiom_vec_index_decreases;
                            assert(decreases_to!(*entries => entries@[i as int]));
                            assert(decreases_to!(*v => entries@[i as int].1));
                            assert(evs.skip(i as int)[0] == evs[i as int]);
                            assert(evs.skip(i as int).drop_first() =~= evs.skip(i as int + 1));
                        }
                        match Error::from_value(&entries[i].1) {
                            Some(e) => {
                                let ghost prev = out@;
                                let ghost ge = e;
                                out.push((entries[i].0.clone(), e));
                                proof {
                                    lemma_named_errors_view_push(
                                        prev,
                                        (entries@[i as int].0, ge),
                                    );
                                    if decode_named(evs.skip(i as int + 1)) is Some {
                                        let rest = decode_named(
                                            evs.skip(i as int + 1),
                                        )->Some_0;
                                        assert(named_errors_view(out@) + rest
                                            =~= named_errors_view(prev) + (seq![
                                            (entries@[i as int].0@, ge@),
                                        ] + rest));
                                    }
                                }
                            },
                            None => {
                                return None;
                            },
                        }
                        i = i + 1;
                    }
                    proof {
                        assert(evs.skip(entries@.len() as int) =~= Seq::<
                            (Seq<char>, ValueView),
                        >::empty());
                        assert(named_errors_view(out@) + Seq::<(Seq<char>, ErrorView)>::empty()
                            =~= named_errors_view(out@));
                    }
                    Some(Error::Struct(out))
                }
            },
            Value::Arr(items) => {
                let ghost ivs = values_view(items@);
                proof {
                    lemma_values_view(items@);
                    assert(ivs.skip(0) =~= ivs);
                }
                let mut out: Vec<(usize, Error)> = Vec::new();
                let mut i: usize = 0;
                while i < items.len()
                    invariant
                        i <= items.len(),
                        match decode_indexed(ivs.skip(i as int)) {
                            Some(rest) => decode_indexed(ivs) == Some(
                                indexed_errors_view(out@) + rest,
                            ),
                            None => decode_indexed(ivs) is None,
                        },
                    decreases items.len() - i,
                {
                    proof {
                        broadcast use vstd::std_specs::vec::axiom_vec_index_decreases;
                        assert(decreases_to!(*items => items@[i as int]));
                        assert(ivs.skip(i as int)[0] == ivs[i as int]);
                        assert(ivs.skip(i as int).drop_first() =~= ivs.skip(i as int + 1));
                    }
                    match &items[i] {
                        Value::Arr(pair) => {
                            proof {
                                lemma_values_view(pair@);
                            }
                            if pair.len() == 2 {
                                match &pair[0] {
                                    Value::Int(n) => {
                                        let converted = usize::try_from(*n);
                                        match converted {
                                            Ok(k) => {
                                                proof {
                                                    broadcast use
                                                        vstd::std_specs::vec::axiom_vec_index_decreases;

                                                    assert(decreases_to!(items@[i as int]
                                                        => *pair));
                                                    assert(decreases_to!(*pair => pair@[1]));
                                                    assert(decreases_to!(*v => pair@[1]));
                                                }
                                                match Error::from_value(&pair[1]) {
                                                    Some(e) => {
                                                        let ghost prev = out@;
                                                        let ghost ge = e;
                                                        out.push((k, e));
                                                        proof {
                                                            lemma_indexed_errors_view_push(
                                                                prev,
                                                                (k, ge),
                                                            );
                                                            if decode_indexed(
                                                                ivs.skip(i as int + 1),
                                                            ) is Some {
                                                                let rest = decode_indexed(
                                                                    ivs.skip(i as int + 1),
                                                                )->Some_0;
                                                                assert(indexed_errors_view(out@)
                                                                    + rest
                                                                    =~= indexed_errors_view(prev)
                                                                    + (seq![(k as int, ge@)]
                                                                    + rest));
                                                            }
                                                        }
                                                    },
                                                    None => {
                                                        return None;
                                                    },
                                                }
                                            },
                                            Err(_) => {
                                                return None;
                                            },
                                        }
                                    },
                                    _ => {
                                        return None;
                                    },
                                }
                            } else {
                                return None;
                            }
                        },
                        _ => {
                            return None;
                        },
                    }
                    i = i + 1;
                }
                proof {
                    assert(ivs.skip(items@.len() as int) =~= Seq::<ValueView>::empty());
                    assert(indexed_errors_view(out@) + Seq::<(int, ErrorView)>::empty()
                        =~= indexed_errors_view(out@));
                }
                Some(Error::List(out))
            },
            _ => None,
        }
    }
}

} // verus!
