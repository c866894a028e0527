//! The filter language: `<field> <operator> <value...>`, applied to the project field.
use vstd::prelude::*;
use crate::record::Record;
use crate::text::{
    contains_text, is_substring, join_from, join_spaced, lower_of, lowercase, split_words,
    str_eq, views_of, words_of,
};

verus! {

/// A filter operator.
#[derive(Clone, Copy, Debug, PartialEq, Eq, Structural)]
pub enum Op {
    /// `==`: the field equals the value.
    Eq,
    /// `!=`: the field differs from the value.
    Ne,
    /// `~=`: the field contains the value.
    Contains,
    /// `~*=`: the field contains the value, ignoring case.
    IContains,
}

/// Why a filter expression was not applied.
#[derive(Clone, Copy, Debug, PartialEq, Eq, Structural)]
pub enum QueryError {
    /// The field is missing or is not a filterable field.
    UnknownField,
    /// The operator is not one of `==`, `!=`, `~=`, `~*=`.
    UnknownOperator,
}

/// A parsed filter on the project field.
pub struct Filter {
    pub op: Op,
    pub value: String,
}

/// The operator written as `s`, if any.
pub open spec fn op_of(s: Seq<char>) -> Option<Op> {
    if s == seq!['=', '='] {
        Some(Op::Eq)
    } else if s == seq!['!', '='] {
        Some(Op::Ne)
    } else if s == seq!['~', '='] {
        Some(Op::Contains)
    } else if s == seq!['~', '*', '='] {
        Some(Op::IContains)
    } else {
        None
    }
}

/// Reads an operator token.
pub fn parse_op(s: &str) -> (r: Option<Op>)
    ensures
        r == op_of(s@),
{
    proof {
        reveal_strlit("==");
        reveal_strlit("!=");
        reveal_strlit("~=");
        reveal_strlit("~*=");
        assert("=="@ =~= seq!['=', '=']);
        assert("!="@ =~= seq!['!', '=']);
        assert("~="@ =~= seq!['~', '=']);
        assert("~*="@ =~= seq!['~', '*', '=']);
    }
    if str_eq(s, "==") {
        Some(Op::Eq)
    } else if str_eq(s, "!=") {
        Some(Op::Ne)
    } else if str_eq(s, "~=") {
        Some(Op::Contains)
    } else if str_eq(s, "~*=") {
        Some(Op::IContains)
    } else {
        None
    }
}

/// Whether a project label passes the operator against the value.
pub open spec fn project_matches(op: Op, project: Seq<char>, value: Seq<char>) -> bool {
    match op {
        Op::Eq => project == value,
        Op::Ne => project != value,
        Op::Contains => is_substring(value, project),
        Op::IContains => is_substring(lower_of(value), lower_of(project)),
    }
}

/// The records that a filter keeps.
pub open spec fn keeps(op: Op, value: Seq<char>) -> spec_fn(Record) -> bool {
    |r: Record| project_matches(op, r.project@, value)
}

fn project_match(op: Op, project: &String, value: &String, value_lc: &String) -> (r: bool)
    requires
        value_lc@ == lower_of(value@),
    ensures
        r == project_matches(op, project@, value@),
{
    match op {
        Op::Eq => *project == *value,
        Op::Ne => !(*project == *value),
        Op::Contains => contains_text(project.as_str(), value.as_str()),
        Op::IContains => {
            let p = lowercase(project.as_str());
            contains_text(p.as_str(), value_lc.as_str())
        },
    }
}

/// Keeps, in their order, exactly the records whose project passes `op` against `value`.
pub fn filter_project(records: &mut Vec<Record>, op: Op, value: String)
    ensures
        final(records)@ == old(records)@.filter(keeps(op, value@)),
{
    let ghost orig = records@;
    let value_lc = lowercase(value.as_str());
    let mut kept: Vec<Record> = Vec::new();
    assert(orig.subrange(0, 0).filter(keeps(op, value@)) =~= Seq::<Record>::empty()) by {
        reveal(Seq::filter);
    }
    assert(records@ =~= orig.subrange(0, orig.len() as int));
    while records.len() > 0
        invariant
            value_lc@ == lower_of(value@),
            records@.len() <= orig.len(),
            records@ == orig.subrange(orig.len() - records@.len(), orig.len() as int),
            kept@ == orig.subrange(0, orig.len() - records@.len()).filter(keeps(op, value@)),
        decreases records@.len(),
    {
        let ghost k = orig.len() - records@.len();
        let r = records.remove(0);
        assert(r == orig[k]);
        assert(orig.subrange(0, k + 1) =~= orig.subrange(0, k).push(orig[k]));
        proof {
            orig.subrange(0, k).lemma_filter_push(orig[k], keeps(op, value@));
        }
        if project_match(op, &r.project, &value, &value_lc) {
            kept.push(r);
        }
        assert(records@ =~= orig.subrange(orig.len() - records@.len(), orig.len() as int));
    }
    assert(orig.subrange(0, orig.len() as int) =~= orig);
    *records = kept;
}

/// The filter that the words of an expression denote: the field, then the
/// operator (`==` when absent), then the value, the remaining words joined by
/// single spaces.
pub open spec fn query_of(w: Seq<Seq<char>>) -> Result<(Op, Seq<char>), QueryError> {
    if w.len() == 0 || w[0] != seq!['p', 'r', 'o', 'j', 'e', 'c', 't'] {
        Err(QueryError::UnknownField)
    } else {
        let op_word = if w.len() >= 2 {
            w[1]
        } else {
            seq!['=', '=']
        };
        match op_of(op_word) {
            None => Err(QueryError::UnknownOperator),
            Some(op) => Ok(
                (op, if w.len() >= 2 {
                    join_spaced(w.subrange(2, w.len() as int))
                } else {
                    Seq::empty()
                }),
            ),
        }
    }
}

/// What a filter result stands for in the terms of `query_of`.
pub open spec fn filter_view(r: Result<Filter, QueryError>) -> Result<(Op, Seq<char>), QueryError> {
    match r {
        Ok(f) => Ok((f.op, f.value@)),
        Err(e) => Err(e),
    }
}

/// Parses the words of a filter expression.
pub fn parse_query_words(words: &Vec<String>) -> (r: Result<Filter, QueryError>)
    ensures
        filter_view(r) == query_of(views_of(words@)),
{
    let ghost w = views_of(words@);
    proof {
        reveal_strlit("project");
        reveal_strlit("==");
        assert("project"@ =~= seq!['p', 'r', 'o', 'j', 'e', 'c', 't']);
        assert("=="@ =~= seq!['=', '=']);
    }
    assert(w.len() == words@.len());
    assert(words@.len() >= 1 ==> w[0] == words@[0]@);
    assert(words@.len() >= 2 ==> w[1] == words@[1]@);
    if words.len() == 0 || !str_eq(words[0].as_str(), "project") {
        return Err(QueryError::UnknownField);
    }
    let op = if words.len() >= 2 {
        parse_op(words[1].as_str())
    } else {
        parse_op("==")
    };
    match op {
        None => Err(QueryError::UnknownOperator),
        Some(op) => {
            let value = join_from(words, 2);
            proof {
                if w.len() >= 2 {
                    assert(views_of(words@.subrange(2, words@.len() as int))
                        =~= w.subrange(2, w.len() as int));
                } else {
                    assert(value@ =~= Seq::<char>::empty());
                }
            }
            Ok(Filter { op, value })
        },
    }
}

/// Applies an already split filter expression; on an error the records are unchanged.
pub fn filter_by_words(records: &mut Vec<Record>, words: &Vec<String>) -> (r: Result<(), QueryError>)
    ensures
        match query_of(views_of(words@)) {
            Ok((op, value)) => r is Ok && final(records)@ == old(records)@.filter(keeps(op, value)),
            Err(e) => r == Err::<(), QueryError>(e) && final(records)@ == old(records)@,
        },
{
    match parse_query_words(words) {
        Ok(f) => {
            filter_project(records, f.op, f.value);
            Ok(())
        },
        Err(e) => Err(e),
    }
}

/// Applies a filter expression such as `project ~*= home`. An empty
/// expression keeps every record; an invalid one is reported and keeps every
/// record.
pub fn apply_filter(records: &mut Vec<Record>, expr: &str) -> (r: Result<(), QueryError>)
    ensures
        expr@.len() == 0 ==> r is Ok && final(records)@ == old(records)@,
        expr@.len() > 0 ==> match query_of(words_of(expr@)) {
            Ok((op, value)) => r is Ok && final(records)@ == old(records)@.filter(keeps(op, value)),
            Err(e) => r == Err::<(), QueryError>(e) && final(records)@ == old(records)@,
        },
{
    if expr.unicode_len() == 0 {
        return Ok(());
    }
    let words = split_words(expr);
    assert(views_of(words@) =~= words_of(expr@));
    filter_by_words(records, &words)
}

/// Filtering with `==` keeps exactly the records whose project equals the
/// value, and filtering with `~*=` exactly those whose project contains the
/// value when both are lower-cased; both keep the records' order.
pub proof fn lemma_filter_exact(s: Seq<Record>, value: Seq<char>)
    ensures
        forall|r: Record|
            s.filter(keeps(Op::Eq, value)).contains(r) <==> (s.contains(r) && r.project@ == value),
        forall|r: Record|
            s.filter(keeps(Op::IContains, value)).contains(r) <==> (s.contains(r) && is_substring(
                lower_of(value),
                lower_of(r.project@),
            )),
{
    broadcast use vstd::seq_lib::group_filter_ensures;
    broadcast use vstd::seq::Seq::lemma_filter_contains_rev;

    assert forall|r: Record|
        s.filter(keeps(Op::Eq, value)).contains(r) <==> (s.contains(r) && r.project@
            == value) by {
        if s.filter(keeps(Op::Eq, value)).contains(r) {
            let i = choose|i: int| 0 <= i < s.filter(keeps(Op::Eq, value)).len() && s.filter(keeps(Op::Eq, value))[i] == r;
            assert(keeps(Op::Eq, value)(s.filter(keeps(Op::Eq, value))[i]));
        }
        if s.contains(r) && r.project@ == value {
            let i = choose|i: int| 0 <= i < s.len() && s[i] == r;
            assert(keeps(Op::Eq, value)(s[i]));
        }
    }
    assert forall|r: Record|
        s.filter(keeps(Op::IContains, value)).contains(r) <==> (s.contains(r) && is_substring(
            lower_of(value),
            lower_of(r.project@),
        )) by {
        let f = s.filter(keeps(Op::IContains, value));
        if f.contains(r) {
            let i = choose|i: int| 0 <= i < f.len() && f[i] == r;
            assert(keeps(Op::IContains, value)(f[i]));
        }
        if s.contains(r) && is_substring(lower_of(value), lower_of(r.project@)) {
            let i = choose|i: int| 0 <= i < s.len() && s[i] == r;
            assert(keeps(Op::IContains, value)(s[i]));
        }
    }
}

} // verus!
