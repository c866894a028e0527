//! Stable ascending sort of records by one named field.
use vstd::prelude::*;
use crate::record::Record;
use crate::text::str_eq;

verus! {

/// A field that records can be sorted by.
#[derive(Clone, Copy, Debug, PartialEq, Eq, Structural)]
pub enum SortField {
    Id,
    Description,
    Completed,
    DateAdded,
    DateCompleted,
    Project,
}

/// The sort field name is not one of the record's fields.
#[derive(Clone, Copy, Debug, PartialEq, Eq, Structural)]
pub struct SortFieldError;

/// The field named `s`; the empty name stands for `id`.
pub open spec fn sort_field_of(s: Seq<char>) -> Option<SortField> {
    if s.len() == 0 || s == seq!['i', 'd'] {
        Some(SortField::Id)
    } else if s == seq!['d', 'e', 's', 'c', 'r', 'i', 'p', 't', 'i', 'o', 'n'] {
        Some(SortField::Description)
    } else if s == seq!['c', 'o', 'm', 'p', 'l', 'e', 't', 'e', 'd'] {
        Some(SortField::Completed)
    } else if s == seq!['d', 'a', 't', 'e', '_', 'a', 'd', 'd', 'e', 'd'] {
        Some(SortField::DateAdded)
    } else if s == seq!['d', 'a', 't', 'e', '_', 'c', 'o', 'm', 'p', 'l', 'e', 't', 'e', 'd'] {
        Some(SortField::DateCompleted)
    } else if s == seq!['p', 'r', 'o', 'j', 'e', 'c', 't'] {
        Some(SortField::Project)
    } else {
        None
    }
}

/// Reads a sort field name.
pub fn parse_sort_field(s: &str) -> (r: Result<SortField, SortFieldError>)
    ensures
        match sort_field_of(s@) {
            Some(f) => r == Ok::<SortField, SortFieldError>(f),
            None => r is Err,
        },
{
    proof {
        reveal_strlit("id");
        reveal_strlit("description");
        reveal_strlit("completed");
        reveal_strlit("date_added");
        reveal_strlit("date_completed");
        reveal_strlit("project");
        assert("id"@ =~= seq!['i', 'd']);
        assert("description"@ =~= seq!['d', 'e', 's', 'c', 'r', 'i', 'p', 't', 'i', 'o', 'n']);
        assert("completed"@ =~= seq!['c', 'o', 'm', 'p', 'l', 'e', 't', 'e', 'd']);
        assert("date_added"@ =~= seq!['d', 'a', 't', 'e', '_', 'a', 'd', 'd', 'e', 'd']);
        assert("date_completed"@ =~= seq![
            'd', 'a', 't', 'e', '_', 'c', 'o', 'm', 'p', 'l', 'e', 't', 'e', 'd'
        ]);
        assert("project"@ =~= seq!['p', 'r', 'o', 'j', 'e', 'c', 't']);
    }
    if s.unicode_len() == 0 || str_eq(s, "id") {
        Ok(SortField::Id)
    } else if str_eq(s, "description") {
        Ok(SortField::Description)
    } else if str_eq(s, "completed") {
        Ok(SortField::Completed)
    } else if str_eq(s, "date_added") {
        Ok(SortField::DateAdded)
    } else if str_eq(s, "date_completed") {
        Ok(SortField::DateCompleted)
    } else if str_eq(s, "project") {
        Ok(SortField::Project)
    } else {
        Err(SortFieldError)
    }
}

/// Lexicographic order of character sequences by code point; a prefix comes first.
pub open spec fn text_le(a: Seq<char>, b: Seq<char>) -> bool
    decreases a.len(),
{
    if a.len() == 0 {
        true
    } else if b.len() == 0 {
        false
    } else if (a[0] as u32) != (b[0] as u32) {
        (a[0] as u32) < (b[0] as u32)
    } else {
        text_le(a.drop_first(), b.drop_first())
    }
}

/// Compares two strings in `text_le` order.
pub fn text_le_exec(a: &str, b: &str) -> (r: bool)
    ensures
        r == text_le(a@, b@),
{
    let n = a.unicode_len();
    let m = b.unicode_len();
    let mut i: usize = 0;
    assert(a@.subrange(0, n as int) =~= a@);
    assert(b@.subrange(0, m as int) =~= b@);
    while i < n && i < m
        invariant
            n == a@.len(),
            m == b@.len(),
            i <= n,
            i <= m,
            text_le(a@, b@) == text_le(a@.subrange(i as int, n as int), b@.subrange(i as int, m as int)),
        decreases n - i,
    {
        let ca = a.get_char(i);
        let cb = b.get_char(i);
        let ghost sa = a@.subrange(i as int, n as int);
        let ghost sb = b@.subrange(i as int, m as int);
        assert(sa[0] == ca && sb[0] == cb);
        if (ca as u32) != (cb as u32) {
            return (ca as u32) < (cb as u32);
        }
        assert(sa.drop_first() =~= a@.subrange(i + 1, n as int));
        assert(sb.drop_first() =~= b@.subrange(i + 1, m as int));
        i = i + 1;
    }
    i == n
}

/// Whether `a` may stand before `b` when sorting by `f` (ascending; `false`
/// before `true`; an absent completion date before a present one).
pub open spec fn key_le(f: SortField, a: Record, b: Record) -> bool {
    match f {
        SortField::Id => a.id <= b.id,
        SortField::Description => text_le(a.desc@, b.desc@),
        SortField::Completed => !a.completed || b.completed,
        SortField::DateAdded => a.date_added <= b.date_added,
        SortField::DateCompleted => match (a.date_completed, b.date_completed) {
            (None, _) => true,
            (Some(_), None) => false,
            (Some(x), Some(y)) => x <= y,
        },
        SortField::Project => text_le(a.project@, b.project@),
    }
}

fn key_le_exec(f: SortField, a: &Record, b: &Record) -> (r: bool)
    ensures
        r == key_le(f, *a, *b),
{
    match f {
        SortField::Id => a.id <= b.id,
        SortField::Description => text_le_exec(a.desc.as_str(), b.desc.as_str()),
        SortField::Completed => !a.completed || b.completed,
        SortField::DateAdded => a.date_added <= b.date_added,
        SortField::DateCompleted => match (a.date_completed, b.date_completed) {
            (None, _) => true,
            (Some(_), None) => false,
            (Some(x), Some(y)) => x <= y,
        },
        SortField::Project => text_le_exec(a.project.as_str(), b.project.as_str()),
    }
}

/// `x` placed into `s` after the last run of elements that do not follow it:
/// scanning from the end, past every element that must come after `x`.
pub open spec fn insert_sorted(f: SortField, s: Seq<Record>, x: Record) -> Seq<Record>
    decreases s.len(),
{
    if s.len() == 0 {
        seq![x]
    } else if key_le(f, s.last(), x) {
        s.push(x)
    } else {
        insert_sorted(f, s.drop_last(), x).push(s.last())
    }
}

/// The stable ascending sort of `s` by `f`: each element in input order is
/// placed after every earlier element that does not follow it.
pub open spec fn sorted_by(f: SortField, s: Seq<Record>) -> Seq<Record>
    decreases s.len(),
{
    if s.len() == 0 {
        Seq::empty()
    } else {
        insert_sorted(f, sorted_by(f, s.drop_last()), s.last())
    }
}

proof fn lemma_insert_at(f: SortField, s: Seq<Record>, x: Record, j: int)
    requires
        0 <= j <= s.len(),
        j > 0 ==> key_le(f, s[j - 1], x),
        forall|k: int| j <= k < s.len() ==> !key_le(f, #[trigger] s[k], x),
    ensures
        insert_sorted(f, s, x) == s.insert(j, x),
    decreases s.len(),
{
    if s.len() == 0 {
        assert(s.insert(j, x) =~= seq![x]);
    } else if j == s.len() {
        assert(s.insert(j, x) =~= s.push(x));
    } else {
        assert(!key_le(f, s[s.len() - 1], x));
        lemma_insert_at(f, s.drop_last(), x, j);
        assert(s.drop_last().insert(j, x).push(s.last()) =~= s.insert(j, x));
    }
}

/// `s` is in ascending order by `f`: each element may stand before the next.
pub open spec fn in_order(f: SortField, s: Seq<Record>) -> bool {
    forall|i: int| 0 <= i < s.len() - 1 ==> key_le(f, #[trigger] s[i], s[i + 1])
}

proof fn lemma_text_le_total(a: Seq<char>, b: Seq<char>)
    ensures
        text_le(a, b) || text_le(b, a),
    decreases a.len(),
{
    if a.len() > 0 && b.len() > 0 && (a[0] as u32) == (b[0] as u32) {
        lemma_text_le_total(a.drop_first(), b.drop_first());
    }
}

proof fn lemma_key_total(f: SortField, a: Record, b: Record)
    ensures
        key_le(f, a, b) || key_le(f, b, a),
{
    match f {
        SortField::Description => lemma_text_le_total(a.desc@, b.desc@),
        SortField::Project => lemma_text_le_total(a.project@, b.project@),
        _ => {},
    }
}

proof fn lemma_insert_sorted(f: SortField, s: Seq<Record>, x: Record)
    ensures
        insert_sorted(f, s, x).len() == s.len() + 1,
        insert_sorted(f, s, x).to_multiset() == s.to_multiset().insert(x),
        in_order(f, s) ==> in_order(f, insert_sorted(f, s, x)),
        insert_sorted(f, s, x).last() == x || (s.len() > 0 && insert_sorted(f, s, x).last()
            == s.last()),
    decreases s.len(),
{
    broadcast use vstd::seq_lib::group_to_multiset_ensures;

    if s.len() == 0 {
        assert(Seq::<Record>::empty().push(x) =~= seq![x]);
        assert(s =~= Seq::<Record>::empty());
    } else if key_le(f, s.last(), x) {
    } else {
        let s1 = s.drop_last();
        let t = insert_sorted(f, s1, x);
        lemma_insert_sorted(f, s1, x);
        assert(s1.push(s.last()) =~= s);
        lemma_key_total(f, s.last(), x);
        if in_order(f, s) {
            assert(in_order(f, s1)) by {
                assert forall|i: int| 0 <= i < s1.len() - 1 implies key_le(
                    f,
                    #[trigger] s1[i],
                    s1[i + 1],
                ) by {
                    assert(key_le(f, s[i], s[i + 1]));
                }
            }
            if t.last() != x {
                assert(key_le(f, s[s.len() - 2], s[s.len() - 1]));
            }
            assert(key_le(f, t.last(), s.last()));
            let u = t.push(s.last());
            assert forall|i: int| 0 <= i < u.len() - 1 implies key_le(f, #[trigger] u[i], u[i + 1]) by {
                if i < t.len() - 1 {
                    assert(key_le(f, t[i], t[i + 1]));
                }
            }
        }
    }
}

/// Sorting by a field puts the records in ascending order of that field and
/// keeps exactly the records it was given.
pub proof fn lemma_sorted_by(f: SortField, s: Seq<Record>)
    ensures
        in_order(f, sorted_by(f, s)),
        sorted_by(f, s).to_multiset() == s.to_multiset(),
    decreases s.len(),
{
    broadcast use vstd::seq_lib::group_to_multiset_ensures;

    if s.len() == 0 {
        assert(s =~= Seq::<Record>::empty());
    } else {
        lemma_sorted_by(f, s.drop_last());
        lemma_insert_sorted(f, sorted_by(f, s.drop_last()), s.last());
        assert(s.drop_last().push(s.last()) =~= s);
    }
}

/// Sorts the records by `f`, stably: the result is in ascending order of `f`
/// and holds the same records.
pub fn sort_records(records: &mut Vec<Record>, f: SortField)
    ensures
        final(records)@ == sorted_by(f, old(records)@),
        in_order(f, final(records)@),
        final(records)@.to_multiset() == old(records)@.to_multiset(),
{
    proof {
        lemma_sorted_by(f, records@);
    }
    let ghost orig = records@;
    let mut out: Vec<Record> = Vec::new();
    assert(orig.subrange(0, 0) =~= Seq::<Record>::empty());
    assert(records@ =~= orig.subrange(0, orig.len() as int));
    while records.len() > 0
        invariant
            records@.len() <= orig.len(),
            records@ == orig.subrange(orig.len() - records@.len(), orig.len() as int),
            out@ == sorted_by(f, orig.subrange(0, orig.len() - records@.len())),
        decreases records@.len(),
    {
        let ghost k = orig.len() - records@.len();
        let x = records.remove(0);
        assert(x == orig[k]);
        let mut j: usize = out.len();
        while j > 0 && !key_le_exec(f, &out[j - 1], &x)
            invariant
                j <= out@.len(),
                forall|i: int| j <= i < out@.len() ==> !key_le(f, #[trigger] out@[i], x),
            decreases j,
        {
            j = j - 1;
        }
        proof {
            lemma_insert_at(f, out@, x, j as int);
            assert(orig.subrange(0, k + 1).drop_last() =~= orig.subrange(0, k));
        }
        out.insert(j, x);
        assert(records@ =~= orig.subrange(orig.len() - records@.len(), orig.len() as int));
    }
    assert(orig.subrange(0, orig.len() as int) =~= orig);
    *records = out;
}

/// The records after sorting by the field named `name`; unchanged when no field has that name.
pub open spec fn sort_outcome(s: Seq<Record>, name: Seq<char>) -> Seq<Record> {
    match sort_field_of(name) {
        Some(f) => sorted_by(f, s),
        None => s,
    }
}

/// Sorts by the field named `name` (the empty name sorts by id). An unknown
/// name is reported and leaves the order as it was.
pub fn apply_sort(records: &mut Vec<Record>, name: &str) -> (r: Result<(), SortFieldError>)
    ensures
        final(records)@ == sort_outcome(old(records)@, name@),
        r is Err <==> sort_field_of(name@) is None,
{
    match parse_sort_field(name) {
        Ok(f) => {
            sort_records(records, f);
            Ok(())
        },
        Err(e) => Err(e),
    }
}

/// Sorting with no field name and sorting by `id` give the same order.
pub proof fn lemma_default_sort_is_id(s: Seq<Record>)
    ensures
        sort_outcome(s, Seq::empty()) == sort_outcome(s, seq!['i', 'd']),
        sort_outcome(s, Seq::empty()) == sorted_by(SortField::Id, s),
{
}

} // verus!
