//! Transform and rule pipelines: ordered, failure-free normalizations
//! followed by ordered, failable validation predicates where the first
//! violated rule wins.

use vstd::prelude::*;

use crate::errors::entry_view;
use crate::errors::Error;

verus! {

/// Whether a character counts as whitespace for trimming.
pub uninterp spec fn is_space_char(c: char) -> bool;

/// Relies on char::is_whitespace: whether a character has the Unicode
/// `White_Space` property depends on the character alone.
#[verifier::external_body]
fn char_is_space(c: char) -> (r: bool)
    ensures
        r == is_space_char(c),
{
    c.is_whitespace()
}

/// `s` without its longest all-whitespace prefix.
pub open spec fn drop_leading_space(s: Seq<char>) -> Seq<char>
    decreases s.len(),
{
    if s.len() > 0 && is_space_char(s[0]) {
        drop_leading_space(s.drop_first())
    } else {
        s
    }
}

/// `s` without its longest all-whitespace suffix.
pub open spec fn drop_trailing_space(s: Seq<char>) -> Seq<char>
    decreases s.len(),
{
    if s.len() > 0 && is_space_char(s[s.len() - 1]) {
        drop_trailing_space(s.drop_last())
    } else {
        s
    }
}

/// `s` without leading and trailing whitespace.
pub open spec fn trim_view(s: Seq<char>) -> Seq<char> {
    drop_trailing_space(drop_leading_space(s))
}

/// Strips leading and trailing whitespace from a string.
pub fn trim_string(s: &String) -> (r: String)
    ensures
        r@ == trim_view(s@),
{
    let st = s.as_str();
    let len = st.unicode_len();
    proof {
        assert(s@.skip(0) =~= s@);
    }
    let mut start: usize = 0;
    loop
        invariant
            0 <= start <= len,
            len == s@.len(),
            st@ == s@,
            drop_leading_space(s@) == drop_leading_space(s@.skip(start as int)),
        ensures
            0 <= start <= len,
            drop_leading_space(s@) == drop_leading_space(s@.skip(start as int)),
            start == len || !is_space_char(s@[start as int]),
        decreases len - start,
    {
        if start < len && char_is_space(st.get_char(start)) {
            proof {
                assert(s@.skip(start as int)[0] == s@[start as int]);
                assert(s@.skip(start as int).drop_first() =~= s@.skip(start as int + 1));
            }
            start = start + 1;
        } else {
            break;
        }
    }
    let ghost lead = s@.skip(start as int);
    proof {
        // `lead` is empty or starts with a non-space, so it is the fixed
        // point of `drop_leading_space`.
        if start == len {
            assert(lead.len() == 0);
        }
        assert(drop_leading_space(lead) == lead);
        assert(drop_leading_space(s@) == lead);
        assert(lead =~= s@.subrange(start as int, len as int));
    }
    let mut end: usize = len;
    loop
        invariant
            start <= end <= len,
            len == s@.len(),
            st@ == s@,
            lead == s@.skip(start as int),
            drop_trailing_space(lead) == drop_trailing_space(
                s@.subrange(start as int, end as int),
            ),
        ensures
            start <= end <= len,
            drop_trailing_space(lead) == drop_trailing_space(
                s@.subrange(start as int, end as int),
            ),
            end == start || !is_space_char(s@[end - 1]),
        decreases end,
    {
        if end > start && char_is_space(st.get_char(end - 1)) {
            proof {
                let t = s@.subrange(start as int, end as int);
                assert(t[t.len() - 1] == s@[end - 1]);
                assert(t.drop_last() =~= s@.subrange(start as int, end as int - 1));
            }
            end = end - 1;
        } else {
            break;
        }
    }
    proof {
        let t = s@.subrange(start as int, end as int);
        if end > start {
            assert(t[t.len() - 1] == s@[end - 1]);
        }
        assert(drop_trailing_space(t) == t);
    }
    let r = st.substring_char(start, end);
    r.to_owned()
}

/// A pure, always-succeeding normalization step for a string value.
#[derive(Debug, Clone, PartialEq)]
pub enum Xform {
    Trim,
}

/// What one transform does to a string.
pub open spec fn xform_view(x: Xform, s: Seq<char>) -> Seq<char> {
    match x {
        Xform::Trim => trim_view(s),
    }
}

/// What an ordered transform pipeline does to a string: each step
/// consumes the previous one's output.
pub open spec fn xforms_view(xs: Seq<Xform>, s: Seq<char>) -> Seq<char>
    decreases xs.len(),
{
    if xs.len() == 0 {
        s
    } else {
        xforms_view(xs.drop_first(), xform_view(xs[0], s))
    }
}

/// Applies one transform.
pub fn apply_xform(x: &Xform, s: String) -> (r: String)
    ensures
        r@ == xform_view(*x, s@),
{
    match x {
        Xform::Trim => trim_string(&s),
    }
}

/// Applies a transform pipeline in declared order.
pub fn apply_xforms(xs: &Vec<Xform>, s: String) -> (r: String)
    ensures
        r@ == xforms_view(xs@, s@),
{
    let ghost orig = s@;
    proof {
        assert(xs@.skip(0) =~= xs@);
    }
    let mut cur = s;
    let mut i: usize = 0;
    while i < xs.len()
        invariant
            i <= xs.len(),
            xforms_view(xs@, orig) == xforms_view(xs@.skip(i as int), cur@),
        decreases xs.len() - i,
    {
        proof {
            assert(xs@.skip(i as int)[0] == xs@[i as int]);
            assert(xs@.skip(i as int).drop_first() =~= xs@.skip(i as int + 1));
        }
        cur = apply_xform(&xs[i], cur);
        i = i + 1;
    }
    cur
}

/// Whether a string is a valid email address.
pub uninterp spec fn is_email(s: Seq<char>) -> bool;

/// Relies on validator's `ValidateEmail` impl for `String`: whether a
/// string passes its HTML5-style email syntax check depends on the
/// string's characters alone.
#[verifier::external_body]
fn validate_email_string(s: &String) -> (r: bool)
    ensures
        r == is_email(s@),
{
    validator::ValidateEmail::validate_email(s)
}

/// Optional lower and upper bounds on a string's byte length.
#[derive(Debug, Clone, PartialEq)]
pub struct LengthArgs {
    pub min: Option<usize>,
    pub max: Option<usize>,
}

/// A failable validation predicate applied after all transforms.
#[derive(Debug, Clone, PartialEq)]
pub enum Rule {
    Email,
    Length(LengthArgs),
}

/// The length a `Length` rule bounds: the string's UTF-8 byte length.
pub open spec fn byte_len(s: Seq<char>) -> nat {
    vstd::utf8::encode_utf8(s).len()
}

/// Whether a string satisfies one rule.
pub open spec fn rule_ok(r: Rule, s: Seq<char>) -> bool {
    match r {
        Rule::Email => is_email(s),
        Rule::Length(args) => {
            &&& (args.min matches Some(m) ==> byte_len(s) >= m)
            &&& (args.max matches Some(m) ==> byte_len(s) <= m)
        },
    }
}

/// The machine-readable code a rule reports when violated; a breach of
/// either length bound reports the same code.
pub open spec fn rule_code(r: Rule) -> Seq<char> {
    match r {
        Rule::Email => "email"@,
        Rule::Length(_) => "length"@,
    }
}

/// Evaluates one rule; a violation yields a leaf failure with the
/// rule's code.
pub fn check_rule(r: &Rule, s: &String) -> (res: Result<(), Error>)
    ensures
        res is Ok <==> rule_ok(*r, s@),
        res matches Err(e) ==> e@ == entry_view(rule_code(*r)),
{
    match r {
        Rule::Email => {
            if validate_email_string(s) {
                Ok(())
            } else {
                Err(Error::entry("email"))
            }
        },
        Rule::Length(args) => {
            let n = s.as_str().as_bytes().len();
            if let Some(m) = args.min {
                if n < m {
                    return Err(Error::entry("length"));
                }
            }
            if let Some(m) = args.max {
                if n > m {
                    return Err(Error::entry("length"));
                }
            }
            Ok(())
        },
    }
}

/// The first rule of the pipeline the string violates, if any.
pub open spec fn rules_failure(rs: Seq<Rule>, s: Seq<char>) -> Option<Rule>
    decreases rs.len(),
{
    if rs.len() == 0 {
        None
    } else if !rule_ok(rs[0], s) {
        Some(rs[0])
    } else {
        rules_failure(rs.drop_first(), s)
    }
}

/// First failure wins: when every rule before position `k` holds and
/// the rule at `k` is violated, the pipeline reports exactly that rule,
/// whatever stands after it.
pub proof fn lemma_first_failure_wins(rs: Seq<Rule>, s: Seq<char>, k: int)
    requires
        0 <= k < rs.len(),
        !rule_ok(rs[k], s),
        forall|i: int| 0 <= i < k ==> rule_ok(#[trigger] rs[i], s),
    ensures
        rules_failure(rs, s) == Some(rs[k]),
    decreases k,
{
    if k > 0 {
        assert(rule_ok(rs[0], s));
        assert(forall|i: int| 0 <= i < k - 1 ==> rs.drop_first()[i] == rs[i + 1]);
        lemma_first_failure_wins(rs.drop_first(), s, k - 1);
    }
}

/// A rule pipeline passes exactly when every one of its rules holds.
pub proof fn lemma_rules_all_ok(rs: Seq<Rule>, s: Seq<char>)
    ensures
        rules_failure(rs, s) is None <==> forall|i: int|
            0 <= i < rs.len() ==> rule_ok(#[trigger] rs[i], s),
    decreases rs.len(),
{
    if rs.len() > 0 {
        lemma_rules_all_ok(rs.drop_first(), s);
        if rules_failure(rs, s) is None {
            assert forall|i: int| 0 <= i < rs.len() implies rule_ok(#[trigger] rs[i], s) by {
                if i > 0 {
                    assert(rs.drop_first()[i - 1] == rs[i]);
                    assert(rule_ok(rs.drop_first()[i - 1], s));
                }
            }
        }
        if forall|i: int| 0 <= i < rs.len() ==> rule_ok(#[trigger] rs[i], s) {
            assert forall|i: int| 0 <= i < rs.drop_first().len() implies rule_ok(
                #[trigger] rs.drop_first()[i],
                s,
            ) by {
                assert(rs.drop_first()[i] == rs[i + 1]);
            }
            assert(rule_ok(rs[0], s));
        }
    }
}

/// Evaluates a rule pipeline in declared order, first failure wins:
/// the reported failure is the first violated rule's, and rules after
/// it are never evaluated.
pub fn check_rules(rs: &Vec<Rule>, s: &String) -> (res: Result<(), Error>)
    ensures
        res is Ok <==> rules_failure(rs@, s@) is None,
        res matches Err(e) ==> rules_failure(rs@, s@) matches Some(r)
            && e@ == entry_view(rule_code(r)),
{
    proof {
        assert(rs@.skip(0) =~= rs@);
    }
    let mut i: usize = 0;
    while i < rs.len()
        invariant
            i <= rs.len(),
            rules_failure(rs@, s@) == rules_failure(rs@.skip(i as int), s@),
        decreases rs.len() - i,
    {
        proof {
            assert(rs@.skip(i as int)[0] == rs@[i as int]);
            assert(rs@.skip(i as int).drop_first() =~= rs@.skip(i as int + 1));
        }
        match check_rule(&rs[i], s) {
            Ok(_) => {
                i = i + 1;
            },
            Err(e) => {
                return Err(e);
            },
        }
    }
    Ok(())
}

} // verus!
