//! Reading a whole store from its rows, and choosing the one mutation of an invocation.
use vstd::prelude::*;
use crate::record::{decode_row, decode_spec, DecodeError, Record};

verus! {

/// The records of the rows that decode, in row order.
pub open spec fn loaded(rows: Seq<Vec<String>>) -> Seq<Record>
    decreases rows.len(),
{
    if rows.len() == 0 {
        Seq::empty()
    } else {
        match decode_spec(rows.last()@) {
            Ok(r) => loaded(rows.drop_last()).push(r),
            Err(_) => loaded(rows.drop_last()),
        }
    }
}

/// The rows that do not decode: their positions (from 0) and errors, in row order.
pub open spec fn rejected(rows: Seq<Vec<String>>) -> Seq<(usize, DecodeError)>
    decreases rows.len(),
{
    if rows.len() == 0 {
        Seq::empty()
    } else {
        match decode_spec(rows.last()@) {
            Ok(_) => rejected(rows.drop_last()),
            Err(e) => rejected(rows.drop_last()).push(((rows.len() - 1) as usize, e)),
        }
    }
}

/// Decodes every row; a row that fails is set aside with its position and the
/// reading goes on.
pub fn load_rows(rows: &Vec<Vec<String>>) -> (r: (Vec<Record>, Vec<(usize, DecodeError)>))
    ensures
        r.0@ == loaded(rows@),
        r.1@ == rejected(rows@),
{
    let mut good: Vec<Record> = Vec::new();
    let mut bad: Vec<(usize, DecodeError)> = Vec::new();
    let mut i: usize = 0;
    assert(rows@.subrange(0, 0) =~= Seq::<Vec<String>>::empty());
    while i < rows.len()
        invariant
            i <= rows@.len(),
            good@ == loaded(rows@.subrange(0, i as int)),
            bad@ == rejected(rows@.subrange(0, i as int)),
        decreases rows@.len() - i,
    {
        assert(rows@.subrange(0, i + 1).drop_last() =~= rows@.subrange(0, i as int));
        assert(rows@.subrange(0, i + 1).last() == rows@[i as int]);
        match decode_row(&rows[i]) {
            Ok(rec) => good.push(rec),
            Err(e) => bad.push((i, e)),
        }
        i = i + 1;
    }
    assert(rows@.subrange(0, rows@.len() as int) =~= rows@);
    (good, bad)
}

/// The mutation that one invocation performs.
#[derive(Clone, Copy, Debug, PartialEq, Eq, Structural)]
pub enum Action {
    /// Append the task description given.
    Add,
    /// Toggle the completion of the record with this id.
    Toggle(u32),
    /// Only show the table.
    Show,
}

/// Picks the mutation: adding when a description is given, else toggling when
/// an id other than 0 is given, else none.
pub fn choose_action(add: &str, complete: u32) -> (r: Action)
    ensures
        add@.len() > 0 ==> r == Action::Add,
        add@.len() == 0 && complete > 0 ==> r == Action::Toggle(complete),
        add@.len() == 0 && complete == 0 ==> r == Action::Show,
{
    if add.unicode_len() > 0 {
        Action::Add
    } else if complete > 0 {
        Action::Toggle(complete)
    } else {
        Action::Show
    }
}

} // verus!
