//! The error tree: a recursive, serializable structure carrying every
//! validation failure, shaped like the target type.

use vstd::prelude::*;

use crate::value::entries_view;
use crate::value::Value;
use crate::value::ValueView;

verus! {

/// A leaf failure: a machine-readable code plus auxiliary parameters for
/// client-side message templating.
#[derive(Debug, PartialEq)]
pub struct ErrorEntry {
    pub code: String,
    pub params: Vec<(String, Value)>,
}

/// Mathematical model of an `ErrorEntry`.
#[verifier::ext_equal]
pub struct EntryView {
    pub code: Seq<char>,
    pub params: Seq<(Seq<char>, ValueView)>,
}

impl View for ErrorEntry {
    type V = EntryView;

    open spec fn view(&self) -> EntryView {
        EntryView { code: self.code@, params: entries_view(self.params@) }
    }
}

/// A validation outcome tree, mirroring the shape of the target type:
/// named fields (`Struct`), positional fields (`List`), or one leaf
/// failure (`Entry`). Only failing fields ever appear.
#[derive(Debug, PartialEq)]
pub enum Error {
    Struct(Vec<(String, Error)>),
    List(Vec<(usize, Error)>),
    Entry(ErrorEntry),
}

/// Mathematical model of an `Error`.
#[verifier::ext_equal]
pub enum ErrorView {
    Struct(Seq<(Seq<char>, ErrorView)>),
    List(Seq<(int, ErrorView)>),
    Entry(EntryView),
}

pub open spec fn error_view(e: Error) -> ErrorView
    decreases e,
{
    match e {
        Error::Struct(fields) => ErrorView::Struct(named_errors_view(fields@)),
        Error::List(items) => ErrorView::List(indexed_errors_view(items@)),
        Error::Entry(en) => ErrorView::Entry(en@),
    }
}

pub open spec fn named_errors_view(s: Seq<(String, Error)>) -> Seq<(Seq<char>, ErrorView)>
    decreases s,
{
    if s.len() == 0 {
        Seq::empty()
    } else {
        seq![(s[0].0@, error_view(s[0].1))] + named_errors_view(s.drop_first())
    }
}

pub open spec fn indexed_errors_view(s: Seq<(usize, Error)>) -> Seq<(int, ErrorView)>
    decreases s,
{
    if s.len() == 0 {
        Seq::empty()
    } else {
        seq![(s[0].0 as int, error_view(s[0].1))] + indexed_errors_view(s.drop_first())
    }
}

impl View for Error {
    type V = ErrorView;

    open spec fn view(&self) -> ErrorView {
        error_view(*self)
    }
}

pub proof fn lemma_named_errors_view(s: Seq<(String, Error)>)
    ensures
        named_errors_view(s).len() == s.len(),
        forall|i: int| 0 <= i < s.len()
            ==> named_errors_view(s)[i] == (s[i].0@, error_view(s[i].1)),
    decreases s.len(),
{
    if s.len() > 0 {
        lemma_named_errors_view(s.drop_first());
        assert forall|i: int| 0 <= i < s.len() implies named_errors_view(s)[i] == (
            s[i].0@,
            error_view(s[i].1),
        ) by {
            if i > 0 {
                assert(s.drop_first()[i - 1] == s[i]);
            }
        }
    }
}

pub proof fn lemma_named_errors_view_push(s: Seq<(String, Error)>, x: (String, Error))
    ensures
        named_errors_view(s.push(x)) == named_errors_view(s) + seq![(x.0@, error_view(x.1))],
    decreases s.len(),
{
    if s.len() == 0 {
        assert(s.push(x).drop_first() =~= Seq::<(String, Error)>::empty());
        assert(s.push(x)[0] == x);
        assert(named_errors_view(s.push(x)) == seq![(x.0@, error_view(x.1))]
            + named_errors_view(s.push(x).drop_first()));
        assert(named_errors_view(s.push(x)) =~= named_errors_view(s) + seq![
            (x.0@, error_view(x.1)),
        ]);
    } else {
        lemma_named_errors_view_push(s.drop_first(), x);
        assert(s.push(x).drop_first() =~= s.drop_first().push(x));
        assert(s.push(x)[0] == s[0]);
        assert(named_errors_view(s.push(x)) == seq![(s[0].0@, error_view(s[0].1))]
            + named_errors_view(s.drop_first().push(x)));
        assert(named_errors_view(s) == seq![(s[0].0@, error_view(s[0].1))]
            + named_errors_view(s.drop_first()));
        assert(named_errors_view(s.push(x)) =~= named_errors_view(s) + seq![
            (x.0@, error_view(x.1)),
        ]);
    }
}

pub proof fn lemma_indexed_errors_view(s: Seq<(usize, Error)>)
    ensures
        indexed_errors_view(s).len() == s.len(),
        forall|i: int| 0 <= i < s.len()
            ==> indexed_errors_view(s)[i] == (s[i].0 as int, error_view(s[i].1)),
    decreases s.len(),
{
    if s.len() > 0 {
        lemma_indexed_errors_view(s.drop_first());
        assert forall|i: int| 0 <= i < s.len() implies indexed_errors_view(s)[i] == (
            s[i].0 as int,
            error_view(s[i].1),
        ) by {
            if i > 0 {
                assert(s.drop_first()[i - 1] == s[i]);
            }
        }
    }
}

pub proof fn lemma_indexed_errors_view_push(s: Seq<(usize, Error)>, x: (usize, Error))
    ensures
        indexed_errors_view(s.push(x)) == indexed_errors_view(s) + seq![
            (x.0 as int, error_view(x.1)),
        ],
    decreases s.len(),
{
    if s.len() == 0 {
        assert(s.push(x).drop_first() =~= Seq::<(usize, Error)>::empty());
        assert(s.push(x)[0] == x);
        assert(indexed_errors_view(s.push(x)) == seq![(x.0 as int, error_view(x.1))]
            + indexed_errors_view(s.push(x).drop_first()));
        assert(indexed_errors_view(s.push(x)) =~= indexed_errors_view(s) + seq![
            (x.0 as int, error_view(x.1)),
        ]);
    } else {
        lemma_indexed_errors_view_push(s.drop_first(), x);
        assert(s.push(x).drop_first() =~= s.drop_first().push(x));
        assert(s.push(x)[0] == s[0]);
        assert(indexed_errors_view(s.push(x)) == seq![(s[0].0 as int, error_view(s[0].1))]
            + indexed_errors_view(s.drop_first().push(x)));
        assert(indexed_errors_view(s) == seq![(s[0].0 as int, error_view(s[0].1))]
            + indexed_errors_view(s.drop_first()));
        assert(indexed_errors_view(s.push(x)) =~= indexed_errors_view(s) + seq![
            (x.0 as int, error_view(x.1)),
        ]);
    }
}

/// The model of a leaf failure with the given code and no parameters.
pub open spec fn entry_view(code: Seq<char>) -> ErrorView {
    ErrorView::Entry(EntryView { code, params: Seq::empty() })
}

impl ErrorEntry {
    /// A fresh leaf failure with the given code and no parameters.
    pub fn new(code: &str) -> (r: Self)
        ensures
            r@ == (EntryView { code: code@, params: Seq::<(Seq<char>, ValueView)>::empty() }),
    {
        let r = ErrorEntry { code: code.to_owned(), params: Vec::new() };
        proof {
            assert(r@ =~= EntryView {
                code: code@,
                params: Seq::<(Seq<char>, ValueView)>::empty(),
            });
        }
        r
    }
}

impl Error {
    /// A leaf failure tree with the given code and no parameters.
    pub fn entry(code: &str) -> (r: Self)
        ensures
            r@ == entry_view(code@),
    {
        Error::Entry(ErrorEntry::new(code))
    }
}

/// A named collection of error trees, as a composite distiller gathers
/// them before deciding the overall outcome.
#[derive(Debug, PartialEq)]
pub struct ErrorMap(pub Vec<(String, Error)>);

impl View for ErrorMap {
    type V = Seq<(Seq<char>, ErrorView)>;

    open spec fn view(&self) -> Seq<(Seq<char>, ErrorView)> {
        named_errors_view(self.0@)
    }
}

impl Default for ErrorMap {
    /// An empty collection.
    fn default() -> (r: Self)
        ensures
            r@ == Seq::<(Seq<char>, ErrorView)>::empty(),
    {
        let r = ErrorMap(Vec::new());
        proof {
            assert(r@ =~= Seq::<(Seq<char>, ErrorView)>::empty());
        }
        r
    }
}

} // verus!
