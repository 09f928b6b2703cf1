//! The composite distiller: a descriptor-driven engine that distills a
//! document value field by field (struct) or position by position
//! (tuple), evaluating every field — no short-circuiting across fields —
//! and aggregating the failures into one error tree.

use vstd::prelude::*;

use crate::distill::Distilled;
use crate::errors::entry_view;
use crate::errors::lemma_named_errors_view;
use crate::errors::lemma_indexed_errors_view;
use crate::errors::lemma_named_errors_view_push;
use crate::errors::lemma_indexed_errors_view_push;
use crate::errors::named_errors_view;
use crate::errors::indexed_errors_view;
use crate::errors::Error;
use crate::errors::ErrorView;
use crate::pipeline::rule_code;
use crate::pipeline::rules_failure;
use crate::pipeline::xforms_view;
use crate::pipeline::apply_xforms;
use crate::pipeline::check_rules;
use crate::pipeline::Rule;
use crate::pipeline::Xform;
use crate::value::lookup_index_view;
use crate::value::lookup_key_view;
use crate::value::opt_value_view;
use crate::value::Value;
use crate::value::ValueView;

verus! {

/// The externally supplied specification of a distillable type: a leaf
/// type, an optional or single-field wrapper around one, or a composite
/// with named or positional fields. Supplied once per target type and
/// interpreted at each call; never derived from the input.
#[derive(Debug, PartialEq)]
pub enum TypeDesc {
    /// Unit: absent or explicitly null.
    Unit,
    /// A string leaf.
    Str,
    /// An unsigned 32-bit integer leaf.
    U32,
    /// Success with no value when the key is absent; otherwise the inner
    /// type distills the present value, explicit null included.
    Optional(Box<TypeDesc>),
    /// A single-field wrapper: the inner value, then the transform
    /// pipeline, then the rule pipeline.
    Newtype(Box<TypeDesc>, Vec<Xform>, Vec<Rule>),
    /// A struct composite: ordered named fields.
    Record(Vec<(String, TypeDesc)>),
    /// A tuple composite: ordered positional fields.
    Tuple(Vec<TypeDesc>),
}

/// A distilled, validated value, shaped as its descriptor dictates.
#[derive(Debug, PartialEq)]
pub enum Distillate {
    Unit,
    Str(String),
    U32(u32),
    Absent,
    Present(Box<Distillate>),
    Record(Vec<Distillate>),
    Tuple(Vec<Distillate>),
}

/// Mathematical model of a `Distillate`.
#[verifier::ext_equal]
pub enum DistillateView {
    Unit,
    Str(Seq<char>),
    U32(u32),
    Absent,
    Present(Box<DistillateView>),
    Record(Seq<DistillateView>),
    Tuple(Seq<DistillateView>),
}

pub open spec fn distillate_view(d: Distillate) -> DistillateView
    decreases d,
{
    match d {
        Distillate::Unit => DistillateView::Unit,
        Distillate::Str(s) => DistillateView::Str(s@),
        Distillate::U32(n) => DistillateView::U32(n),
        Distillate::Absent => DistillateView::Absent,
        Distillate::Present(b) => DistillateView::Present(Box::new(distillate_view(*b))),
        Distillate::Record(items) => DistillateView::Record(distillates_view(items@)),
        Distillate::Tuple(items) => DistillateView::Tuple(distillates_view(items@)),
    }
}

pub open spec fn distillates_view(s: Seq<Distillate>) -> Seq<DistillateView>
    decreases s,
{
    if s.len() == 0 {
        Seq::empty()
    } else {
        seq![distillate_view(s[0])] + distillates_view(s.drop_first())
    }
}

impl View for Distillate {
    type V = DistillateView;

    open spec fn view(&self) -> DistillateView {
        distillate_view(*self)
    }
}

pub proof fn lemma_distillates_view(s: Seq<Distillate>)
    ensures
        distillates_view(s).len() == s.len(),
        forall|i: int| 0 <= i < s.len() ==> distillates_view(s)[i] == distillate_view(s[i]),
    decreases s.len(),
{
    if s.len() > 0 {
        lemma_distillates_view(s.drop_first());
        assert forall|i: int| 0 <= i < s.len() implies distillates_view(s)[i] == distillate_view(
            s[i],
        ) by {
            if i > 0 {
                assert(s.drop_first()[i - 1] == s[i]);
            }
        }
    }
}

pub proof fn lemma_distillates_view_push(s: Seq<Distillate>, x: Distillate)
    ensures
        distillates_view(s.push(x)) == distillates_view(s) + seq![distillate_view(x)],
    decreases s.len(),
{
    if s.len() == 0 {
        assert(s.push(x).drop_first() =~= Seq::<Distillate>::empty());
        assert(s.push(x)[0] == x);
        assert(distillates_view(s.push(x)) == seq![distillate_view(x)] + distillates_view(
            s.push(x).drop_first(),
        ));
        assert(distillates_view(s.push(x)) =~= distillates_view(s) + seq![distillate_view(x)]);
    } else {
        lemma_distillates_view_push(s.drop_first(), x);
        assert(s.push(x).drop_first() =~= s.drop_first().push(x));
        assert(s.push(x)[0] == s[0]);
        assert(distillates_view(s.push(x)) == seq![distillate_view(s[0])] + distillates_view(
            s.drop_first().push(x),
        ));
        assert(distillates_view(s) == seq![distillate_view(s[0])] + distillates_view(
            s.drop_first(),
        ));
        assert(distillates_view(s.push(x)) =~= distillates_view(s) + seq![distillate_view(x)]);
    }
}

/// What distilling a value against a descriptor yields: the distilled
/// value, or the error tree gathering every failing field.
pub open spec fn spec_distill(ty: TypeDesc, v: Option<ValueView>) -> Result<
    DistillateView,
    ErrorView,
>
    decreases ty,
{
    match ty {
        TypeDesc::Unit => {
            if v is None || v == Some(ValueView::Null) {
                Ok(DistillateView::Unit)
            } else {
                Err(entry_view("wrong_type"@))
            }
        },
        TypeDesc::Str => match v {
            None => Err(entry_view("missing_field"@)),
            Some(ValueView::Str(s)) => Ok(DistillateView::Str(s)),
            Some(_) => Err(entry_view("wrong_type"@)),
        },
        TypeDesc::U32 => match v {
            None => Err(entry_view("missing_field"@)),
            Some(ValueView::Int(n)) => {
                if 0 <= n <= u32::MAX {
                    Ok(DistillateView::U32(n as u32))
                } else {
                    Err(entry_view("wrong_type"@))
                }
            },
            Some(_) => Err(entry_view("wrong_type"@)),
        },
        TypeDesc::Optional(inner) => match v {
            None => Ok(DistillateView::Absent),
            Some(vv) => match spec_distill(*inner, Some(vv)) {
                Ok(d) => Ok(DistillateView::Present(Box::new(d))),
                Err(e) => Err(e),
            },
        },
        TypeDesc::Newtype(inner, xfs, rls) => match spec_distill(*inner, v) {
            Err(e) => Err(e),
            Ok(d) => match d {
                DistillateView::Str(s0) => {
                    let s1 = xforms_view(xfs@, s0);
                    match rules_failure(rls@, s1) {
                        Some(r) => Err(entry_view(rule_code(r))),
                        None => Ok(DistillateView::Str(s1)),
                    }
                },
                _ => Ok(d),
            },
        },
        TypeDesc::Record(fields) => match v {
            None => Err(entry_view("missing_field"@)),
            Some(vv) => {
                if record_errors(fields@, vv).len() == 0 {
                    Ok(DistillateView::Record(record_values(fields@, vv)))
                } else {
                    Err(ErrorView::Struct(record_errors(fields@, vv)))
                }
            },
        },
        TypeDesc::Tuple(items) => match v {
            None => Err(entry_view("missing_field"@)),
            Some(vv) => {
                if tuple_errors(items@, vv, 0).len() == 0 {
                    Ok(DistillateView::Tuple(tuple_values(items@, vv, 0)))
                } else {
                    Err(ErrorView::List(tuple_errors(items@, vv, 0)))
                }
            },
        },
    }
}

/// The distilled values of the succeeding named fields, in field order.
pub open spec fn record_values(fields: Seq<(String, TypeDesc)>, vv: ValueView) -> Seq<
    DistillateView,
>
    decreases fields,
{
    if fields.len() == 0 {
        Seq::empty()
    } else {
        let rest = record_values(fields.drop_first(), vv);
        match spec_distill(fields[0].1, lookup_key_view(vv, fields[0].0@)) {
            Ok(d) => seq![d] + rest,
            Err(_) => rest,
        }
    }
}

/// The failing named fields with their errors, in field order: exactly
/// the failing fields, never the succeeding ones.
pub open spec fn record_errors(fields: Seq<(String, TypeDesc)>, vv: ValueView) -> Seq<
    (Seq<char>, ErrorView),
>
    decreases fields,
{
    if fields.len() == 0 {
        Seq::empty()
    } else {
        let rest = record_errors(fields.drop_first(), vv);
        match spec_distill(fields[0].1, lookup_key_view(vv, fields[0].0@)) {
            Ok(_) => rest,
            Err(e) => seq![(fields[0].0@, e)] + rest,
        }
    }
}

/// The distilled values of the succeeding positional fields, in order,
/// starting at position `base`.
pub open spec fn tuple_values(items: Seq<TypeDesc>, vv: ValueView, base: int) -> Seq<
    DistillateView,
>
    decreases items,
{
    if items.len() == 0 {
        Seq::empty()
    } else {
        let rest = tuple_values(items.drop_first(), vv, base + 1);
        match spec_distill(items[0], lookup_index_view(vv, base)) {
            Ok(d) => seq![d] + rest,
            Err(_) => rest,
        }
    }
}

/// The failing positions with their errors, in order, starting at
/// position `base`: exactly the failing positions.
pub open spec fn tuple_errors(items: Seq<TypeDesc>, vv: ValueView, base: int) -> Seq<
    (int, ErrorView),
>
    decreases items,
{
    if items.len() == 0 {
        Seq::empty()
    } else {
        let rest = tuple_errors(items.drop_first(), vv, base + 1);
        match spec_distill(items[0], lookup_index_view(vv, base)) {
            Ok(_) => rest,
            Err(e) => seq![(base, e)] + rest,
        }
    }
}

/// The names of the fields of a descriptor that fail on `vv`, in
/// descriptor order.
pub open spec fn failing_fields(fields: Seq<(String, TypeDesc)>, vv: ValueView) -> Seq<Seq<char>>
    decreases fields,
{
    if fields.len() == 0 {
        Seq::empty()
    } else {
        let rest = failing_fields(fields.drop_first(), vv);
        if spec_distill(fields[0].1, lookup_key_view(vv, fields[0].0@)) is Err {
            seq![fields[0].0@] + rest
        } else {
            rest
        }
    }
}

/// The keys of a named error collection, in order.
pub open spec fn error_keys(errs: Seq<(Seq<char>, ErrorView)>) -> Seq<Seq<char>>
    decreases errs,
{
    if errs.len() == 0 {
        Seq::empty()
    } else {
        seq![errs[0].0] + error_keys(errs.drop_first())
    }
}

proof fn lemma_error_keys_cons(p: (Seq<char>, ErrorView), rest: Seq<(Seq<char>, ErrorView)>)
    ensures
        error_keys(seq![p] + rest) == seq![p.0] + error_keys(rest),
{
    let s = seq![p] + rest;
    assert(s[0] == p);
    assert(s.drop_first() =~= rest);
}

/// When every field of a composite distills successfully, no error tree
/// is constructed at all: absence of an error tree is success.
pub proof fn lemma_record_all_ok(fields: Seq<(String, TypeDesc)>, vv: ValueView)
    requires
        forall|i: int| 0 <= i < fields.len()
            ==> (#[trigger] spec_distill(fields[i].1, lookup_key_view(vv, fields[i].0@))) is Ok,
    ensures
        record_errors(fields, vv) == Seq::<(Seq<char>, ErrorView)>::empty(),
    decreases fields.len(),
{
    if fields.len() > 0 {
        assert(spec_distill(fields[0].1, lookup_key_view(vv, fields[0].0@)) is Ok);
        assert forall|i: int| 0 <= i < fields.drop_first().len() implies (#[trigger] spec_distill(
            fields.drop_first()[i].1,
            lookup_key_view(vv, fields.drop_first()[i].0@),
        )) is Ok by {
            assert(fields.drop_first()[i] == fields[i + 1]);
        }
        lemma_record_all_ok(fields.drop_first(), vv);
    }
}

/// When exactly one field of a composite fails, the error struct holds
/// exactly that field's name mapped to that field's own error — in
/// particular, a lone missing required field yields exactly its
/// `missing_field` entry, and correctly distilled fields produce none.
pub proof fn lemma_single_failing_field(
    fields: Seq<(String, TypeDesc)>,
    vv: ValueView,
    k: int,
    e: ErrorView,
)
    requires
        0 <= k < fields.len(),
        spec_distill(fields[k].1, lookup_key_view(vv, fields[k].0@)) == Err::<
            DistillateView,
            ErrorView,
        >(e),
        forall|i: int| 0 <= i < fields.len() && i != k
            ==> (#[trigger] spec_distill(fields[i].1, lookup_key_view(vv, fields[i].0@))) is Ok,
    ensures
        record_errors(fields, vv) == seq![(fields[k].0@, e)],
    decreases fields.len(),
{
    assert(forall|i: int| 0 <= i < fields.drop_first().len()
        ==> #[trigger] fields.drop_first()[i] == fields[i + 1]);
    if k == 0 {
        assert forall|i: int| 0 <= i < fields.drop_first().len() implies (#[trigger] spec_distill(
            fields.drop_first()[i].1,
            lookup_key_view(vv, fields.drop_first()[i].0@),
        )) is Ok by {
            assert(fields.drop_first()[i] == fields[i + 1]);
        }
        lemma_record_all_ok(fields.drop_first(), vv);
        assert(record_errors(fields, vv) =~= seq![(fields[0].0@, e)]);
    } else {
        lemma_single_failing_field(fields.drop_first(), vv, k - 1, e);
        assert(spec_distill(fields[0].1, lookup_key_view(vv, fields[0].0@)) is Ok);
        assert(record_errors(fields, vv) == record_errors(fields.drop_first(), vv));
        assert(fields.drop_first()[k - 1] == fields[k]);
    }
}

/// Exhaustiveness of struct aggregation: the keys of the error struct
/// are exactly the names of the failing fields, in descriptor order —
/// never fewer (no early abort), never more.
pub proof fn lemma_record_errors_keys(fields: Seq<(String, TypeDesc)>, vv: ValueView)
    ensures
        error_keys(record_errors(fields, vv)) == failing_fields(fields, vv),
    decreases fields.len(),
{
    if fields.len() > 0 {
        lemma_record_errors_keys(fields.drop_first(), vv);
        match spec_distill(fields[0].1, lookup_key_view(vv, fields[0].0@)) {
            Ok(_) => {},
            Err(e) => {
                lemma_error_keys_cons(
                    (fields[0].0@, e),
                    record_errors(fields.drop_first(), vv),
                );
            },
        }
    }
}

/// The positions of a tuple descriptor that fail on `vv`, in order,
/// counting from `base`.
pub open spec fn failing_positions(items: Seq<TypeDesc>, vv: ValueView, base: int) -> Seq<int>
    decreases items,
{
    if items.len() == 0 {
        Seq::empty()
    } else {
        let rest = failing_positions(items.drop_first(), vv, base + 1);
        if spec_distill(items[0], lookup_index_view(vv, base)) is Err {
            seq![base] + rest
        } else {
            rest
        }
    }
}

/// The positions of an indexed error collection, in order.
pub open spec fn error_positions(errs: Seq<(int, ErrorView)>) -> Seq<int>
    decreases errs,
{
    if errs.len() == 0 {
        Seq::empty()
    } else {
        seq![errs[0].0] + error_positions(errs.drop_first())
    }
}

proof fn lemma_error_positions_cons(p: (int, ErrorView), rest: Seq<(int, ErrorView)>)
    ensures
        error_positions(seq![p] + rest) == seq![p.0] + error_positions(rest),
{
    let s = seq![p] + rest;
    assert(s[0] == p);
    assert(s.drop_first() =~= rest);
}

/// When every position of a tuple distills successfully, no error tree
/// is constructed at all.
pub proof fn lemma_tuple_all_ok(items: Seq<TypeDesc>, vv: ValueView, base: int)
    requires
        forall|i: int| 0 <= i < items.len()
            ==> (#[trigger] spec_distill(items[i], lookup_index_view(vv, base + i))) is Ok,
    ensures
        tuple_errors(items, vv, base) == Seq::<(int, ErrorView)>::empty(),
    decreases items.len(),
{
    if items.len() > 0 {
        assert(spec_distill(items[0], lookup_index_view(vv, base + 0)) is Ok);
        assert forall|i: int| 0 <= i < items.drop_first().len() implies (#[trigger] spec_distill(
            items.drop_first()[i],
            lookup_index_view(vv, base + 1 + i),
        )) is Ok by {
            assert(items.drop_first()[i] == items[i + 1]);
            assert(spec_distill(items[i + 1], lookup_index_view(vv, base + (i + 1))) is Ok);
        }
        lemma_tuple_all_ok(items.drop_first(), vv, base + 1);
    }
}

/// Exhaustiveness of tuple aggregation: the positions of the error list
/// are exactly the failing positions, in order — only failing positions
/// appear, and all of them do.
pub proof fn lemma_tuple_errors_positions(items: Seq<TypeDesc>, vv: ValueView, base: int)
    ensures
        error_positions(tuple_errors(items, vv, base)) == failing_positions(items, vv, base),
    decreases items.len(),
{
    if items.len() > 0 {
        lemma_tuple_errors_positions(items.drop_first(), vv, base + 1);
        match spec_distill(items[0], lookup_index_view(vv, base)) {
            Ok(_) => {},
            Err(e) => {
                lemma_error_positions_cons(
                    (base, e),
                    tuple_errors(items.drop_first(), vv, base + 1),
                );
            },
        }
    }
}

/// Distills a value against a descriptor: the typed result, or the
/// error tree holding exactly the failing fields.
pub fn distill_value(ty: &TypeDesc, value: Option<&Value>) -> (r: Result<Distillate, Error>)
    ensures
        match r {
            Ok(d) => spec_distill(*ty, opt_value_view(value)) == Ok::<DistillateView, ErrorView>(
                d@,
            ),
            Err(e) => spec_distill(*ty, opt_value_view(value)) == Err::<DistillateView, ErrorView>(
                e@,
            ),
        },
    decreases *ty,
{
    match ty {
        TypeDesc::Unit => match <() as Distilled>::distill(value) {
            Ok(_) => Ok(Distillate::Unit),
            Err(e) => Err(e),
        },
        TypeDesc::Str => match <String as Distilled>::distill(value) {
            Ok(s) => Ok(Distillate::Str(s)),
            Err(e) => Err(e),
        },
        TypeDesc::U32 => match <u32 as Distilled>::distill(value) {
            Ok(n) => Ok(Distillate::U32(n)),
            Err(e) => Err(e),
        },
        TypeDesc::Optional(inner) => match value {
            None => Ok(Distillate::Absent),
            Some(v) => match distill_value(inner, Some(v)) {
                Ok(d) => Ok(Distillate::Present(Box::new(d))),
                Err(e) => Err(e),
            },
        },
        TypeDesc::Newtype(inner, xfs, rls) => match distill_value(inner, value) {
            Err(e) => Err(e),
            Ok(d) => match d {
                Distillate::Str(s0) => {
                    let s1 = apply_xforms(xfs, s0);
                    match check_rules(rls, &s1) {
                        Ok(_) => Ok(Distillate::Str(s1)),
                        Err(e) => Err(e),
                    }
                },
                other => Ok(other),
            },
        },
        TypeDesc::Record(fields) => match value {
            None => Err(Error::entry("missing_field")),
            Some(v) => distill_record(fields, v),
        },
        TypeDesc::Tuple(items) => match value {
            None => Err(Error::entry("missing_field")),
            Some(v) => distill_tuple(items, v),
        },
    }
}

/// The struct form of the composite distiller: every named field is
/// evaluated — failing fields never abort their siblings — and either
/// all values are returned in field order or the failing fields are,
/// keyed by name.
pub fn distill_record(fields: &Vec<(String, TypeDesc)>, v: &Value) -> (r: Result<
    Distillate,
    Error,
>)
    ensures
        match r {
            Ok(d) => record_errors(fields@, v@).len() == 0 && d@ == DistillateView::Record(
                record_values(fields@, v@),
            ),
            Err(e) => record_errors(fields@, v@).len() > 0 && e@ == ErrorView::Struct(
                record_errors(fields@, v@),
            ),
        },
    decreases fields@,
{
    let ghost vv = v@;
    proof {
        assert(fields@.skip(0) =~= fields@);
    }
    let mut values: Vec<Distillate> = Vec::new();
    let mut errors: Vec<(String, Error)> = Vec::new();
    let mut i: usize = 0;
    while i < fields.len()
        invariant
            i <= fields.len(),
            vv == v@,
            record_values(fields@, vv) == distillates_view(values@) + record_values(
                fields@.skip(i as int),
                vv,
            ),
            record_errors(fields@, vv) == named_errors_view(errors@) + record_errors(
                fields@.skip(i as int),
                vv,
            ),
        decreases fields.len() - i,
    {
        proof {
            assert(fields@.skip(i as int)[0] == fields@[i as int]);
            assert(fields@.skip(i as int).drop_first() =~= fields@.skip(i as int + 1));
        }
        let fv = v.lookup_key(&fields[i].0);
        match distill_value(&fields[i].1, fv) {
            Ok(d) => {
                let ghost prev = values@;
                values.push(d);
                proof {
                    lemma_distillates_view_push(prev, d);
                    assert(record_values(fields@, vv) =~= distillates_view(values@)
                        + record_values(fields@.skip(i as int + 1), vv));
                    assert(record_errors(fields@, vv) =~= named_errors_view(errors@)
                        + record_errors(fields@.skip(i as int + 1), vv));
                }
            },
            Err(e) => {
                let name = fields[i].0.clone();
                let ghost prev = errors@;
                let ghost ge = e;
                errors.push((name, e));
                proof {
                    lemma_named_errors_view_push(prev, (fields@[i as int].0, ge));
                    assert(errors@ == prev.push((fields@[i as int].0, ge)));
                    assert(record_errors(fields@, vv) =~= named_errors_view(errors@)
                        + record_errors(fields@.skip(i as int + 1), vv));
                    assert(record_values(fields@, vv) =~= distillates_view(values@)
                        + record_values(fields@.skip(i as int + 1), vv));
                }
            },
        }
        i = i + 1;
    }
    proof {
        assert(fields@.skip(fields@.len() as int) =~= Seq::<(String, TypeDesc)>::empty());
        assert(record_values(fields@, vv) =~= distillates_view(values@));
        assert(record_errors(fields@, vv) =~= named_errors_view(errors@));
        lemma_named_errors_view(errors@);
    }
    if errors.len() == 0 {
        Ok(Distillate::Record(values))
    } else {
        Err(Error::Struct(errors))
    }
}

/// The tuple form of the composite distiller: identical aggregation
/// policy, keyed by zero-based position against an array-shaped value.
pub fn distill_tuple(items: &Vec<TypeDesc>, v: &Value) -> (r: Result<Distillate, Error>)
    ensures
        match r {
            Ok(d) => tuple_errors(items@, v@, 0).len() == 0 && d@ == DistillateView::Tuple(
                tuple_values(items@, v@, 0),
            ),
            Err(e) => tuple_errors(items@, v@, 0).len() > 0 && e@ == ErrorView::List(
                tuple_errors(items@, v@, 0),
            ),
        },
    decreases items@,
{
    let ghost vv = v@;
    proof {
        assert(items@.skip(0) =~= items@);
    }
    let mut values: Vec<Distillate> = Vec::new();
    let mut errors: Vec<(usize, Error)> = Vec::new();
    let mut i: usize = 0;
    while i < items.len()
        invariant
            i <= items.len(),
            vv == v@,
            tuple_values(items@, vv, 0) == distillates_view(values@) + tuple_values(
                items@.skip(i as int),
                vv,
                i as int,
            ),
            tuple_errors(items@, vv, 0) == indexed_errors_view(errors@) + tuple_errors(
                items@.skip(i as int),
                vv,
                i as int,
            ),
        decreases items.len() - i,
    {
        proof {
            assert(items@.skip(i as int)[0] == items@[i as int]);
            assert(items@.skip(i as int).drop_first() =~= items@.skip(i as int + 1));
        }
        let fv = v.lookup_index(i);
        match distill_value(&items[i], fv) {
            Ok(d) => {
                let ghost prev = values@;
                values.push(d);
                proof {
                    lemma_distillates_view_push(prev, d);
                    assert(tuple_values(items@, vv, 0) =~= distillates_view(values@)
                        + tuple_values(items@.skip(i as int + 1), vv, i as int + 1));
                    assert(tuple_errors(items@, vv, 0) =~= indexed_errors_view(errors@)
                        + tuple_errors(items@.skip(i as int + 1), vv, i as int + 1));
                }
            },
            Err(e) => {
                let ghost prev = errors@;
                let ghost ge = e;
                errors.push((i, e));
                proof {
                    lemma_indexed_errors_view_push(prev, (i, ge));
                    assert(errors@ == prev.push((i, ge)));
                    assert(tuple_errors(items@, vv, 0) =~= indexed_errors_view(errors@)
                        + tuple_errors(items@.skip(i as int + 1), vv, i as int + 1));
                    assert(tuple_values(items@, vv, 0) =~= distillates_view(values@)
                        + tuple_values(items@.skip(i as int + 1), vv, i as int + 1));
                }
            },
        }
        i = i + 1;
    }
    proof {
        assert(items@.skip(items@.len() as int) =~= Seq::<TypeDesc>::empty());
        assert(tuple_values(items@, vv, 0) =~= distillates_view(values@));
        assert(tuple_errors(items@, vv, 0) =~= indexed_errors_view(errors@));
        lemma_indexed_errors_view(errors@);
    }
    if errors.len() == 0 {
        Ok(Distillate::Tuple(values))
    } else {
        Err(Error::List(errors))
    }
}

} // verus!
