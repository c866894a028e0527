//! The todo record and its encoding as a row of text fields.
use vstd::prelude::*;
use crate::render::{day_of, format_day};
use crate::text::{decimal, digit_char, i64_text, signed_decimal, str_eq, u64_text, views_of};

verus! {

/// One todo entry. Timestamps are whole seconds since the Unix epoch, UTC.
pub struct Record {
    pub id: u32,
    pub project: String,
    pub desc: String,
    pub completed: bool,
    pub date_added: i64,
    pub date_completed: Option<i64>,
}

impl Record {
    /// A completion date is present exactly when the record is completed.
    pub open spec fn wf(&self) -> bool {
        self.completed <==> self.date_completed is Some
    }
}

/// Why a stored row could not be read as a record.
#[derive(Clone, Copy, Debug, PartialEq, Eq, Structural)]
pub enum DecodeError {
    /// The row does not have exactly six fields.
    FieldCount,
    /// The id is not a decimal number that fits in 32 bits.
    Id,
    /// The completion flag is neither `true` nor `false`.
    Completed,
    /// The date added is not a representable timestamp in seconds.
    DateAdded,
    /// The completion date is neither empty nor a representable timestamp in seconds.
    DateCompleted,
}

/// An ASCII decimal digit.
pub open spec fn is_digit(c: char) -> bool {
    '0' <= c && c <= '9'
}

/// A non-empty run of decimal digits.
pub open spec fn all_digits(s: Seq<char>) -> bool {
    s.len() > 0 && forall|i: int| 0 <= i < s.len() ==> is_digit(#[trigger] s[i])
}

/// The number that a run of decimal digits denotes.
pub open spec fn digits_value(s: Seq<char>) -> nat
    decreases s.len(),
{
    if s.len() == 0 {
        0
    } else {
        digits_value(s.drop_last()) * 10 + (s.last() as nat - '0' as nat) as nat
    }
}

/// `s` without one leading `+`.
pub open spec fn unsigned_part(s: Seq<char>) -> Seq<char> {
    if s.len() > 0 && s[0] == '+' {
        s.drop_first()
    } else {
        s
    }
}

/// The unsigned number that `s` denotes when it is at most `limit`: an optional
/// `+`, then one or more decimal digits.
pub open spec fn unsigned_value(s: Seq<char>, limit: nat) -> Option<nat> {
    let d = unsigned_part(s);
    if all_digits(d) && digits_value(d) <= limit {
        Some(digits_value(d))
    } else {
        None
    }
}

/// `s` read as a 32-bit unsigned number.
pub open spec fn u32_of(s: Seq<char>) -> Option<u32> {
    match unsigned_value(s, u32::MAX as nat) {
        Some(v) => Some(v as u32),
        None => None,
    }
}

/// `s` read as a 64-bit signed number: an optional sign, then decimal digits.
pub open spec fn i64_of(s: Seq<char>) -> Option<i64> {
    if s.len() > 0 && s[0] == '-' {
        let d = s.drop_first();
        if all_digits(d) && digits_value(d) <= 0x8000_0000_0000_0000 {
            Some((-(digits_value(d) as int)) as i64)
        } else {
            None
        }
    } else {
        match unsigned_value(s, i64::MAX as nat) {
            Some(v) => Some(v as i64),
            None => None,
        }
    }
}

proof fn lemma_prefix_value_le(s: Seq<char>, k: int)
    requires
        0 <= k <= s.len(),
        forall|i: int| 0 <= i < s.len() ==> is_digit(#[trigger] s[i]),
    ensures
        digits_value(s.subrange(0, k)) <= digits_value(s),
    decreases s.len() - k,
{
    if k < s.len() {
        lemma_prefix_value_le(s, k + 1);
        assert(s.subrange(0, k + 1).drop_last() =~= s.subrange(0, k));
    } else {
        assert(s.subrange(0, k) =~= s);
    }
}

/// The value of the digits of `s` from character `from` on, when they are a
/// non-empty run of digits whose value is at most `limit`.
fn digits_from(s: &str, from: usize, limit: u64) -> (r: Option<u64>)
    requires
        from <= s@.len(),
    ensures
        ({
            let d = s@.subrange(from as int, s@.len() as int);
            match r {
                Some(v) => all_digits(d) && digits_value(d) <= limit && v == digits_value(d),
                None => !(all_digits(d) && digits_value(d) <= limit),
            }
        }),
{
    let n = s.unicode_len();
    let ghost d = s@.subrange(from as int, n as int);
    if from == n {
        return None;
    }
    let mut acc: u64 = 0;
    let mut i: usize = from;
    assert(d.subrange(0, 0) =~= Seq::<char>::empty());
    while i < n
        invariant
            n == s@.len(),
            from < n,
            from <= i <= n,
            d == s@.subrange(from as int, n as int),
            forall|j: int| 0 <= j < i - from ==> is_digit(#[trigger] d[j]),
            acc == digits_value(d.subrange(0, i - from)),
            acc <= limit,
        decreases n - i,
    {
        let c = s.get_char(i);
        assert(d[i - from] == c);
        if !('0' <= c && c <= '9') {
            return None;
        }
        let v: u128 = (acc as u128) * 10 + ((c as u32) - ('0' as u32)) as u128;
        assert(d.subrange(0, i - from + 1).drop_last() =~= d.subrange(0, i - from));
        assert(v == digits_value(d.subrange(0, i - from + 1)));
        if v > limit as u128 {
            proof {
                if all_digits(d) {
                    lemma_prefix_value_le(d, i - from + 1);
                }
            }
            return None;
        }
        acc = v as u64;
        i = i + 1;
    }
    assert(d.subrange(0, n - from) =~= d);
    Some(acc)
}

/// Reads a 32-bit unsigned decimal number (an optional `+`, then digits).
pub fn parse_u32(s: &str) -> (r: Option<u32>)
    ensures
        r == u32_of(s@),
{
    let n = s.unicode_len();
    let from: usize = if n > 0 && s.get_char(0) == '+' { 1 } else { 0 };
    assert(unsigned_part(s@) =~= s@.subrange(from as int, n as int));
    match digits_from(s, from, 0xffff_ffff) {
        Some(v) => Some(v as u32),
        None => None,
    }
}

/// Reads a 64-bit signed decimal number (an optional sign, then digits).
pub fn parse_i64(s: &str) -> (r: Option<i64>)
    ensures
        r == i64_of(s@),
{
    let n = s.unicode_len();
    if n > 0 && s.get_char(0) == '-' {
        assert(s@.drop_first() =~= s@.subrange(1, n as int));
        match digits_from(s, 1, 0x8000_0000_0000_0000) {
            Some(v) => {
                let r: i64 = if v == 0x8000_0000_0000_0000 { i64::MIN } else { -(v as i64) };
                Some(r)
            },
            None => None,
        }
    } else {
        let from: usize = if n > 0 && s.get_char(0) == '+' { 1 } else { 0 };
        assert(unsigned_part(s@) =~= s@.subrange(from as int, n as int));
        match digits_from(s, from, 0x7fff_ffff_ffff_ffff) {
            Some(v) => Some(v as i64),
            None => None,
        }
    }
}

/// `s` read as a boolean literal.
pub open spec fn bool_of(s: Seq<char>) -> Option<bool> {
    if s == seq!['t', 'r', 'u', 'e'] {
        Some(true)
    } else if s == seq!['f', 'a', 'l', 's', 'e'] {
        Some(false)
    } else {
        None
    }
}

/// A timestamp that a date field can hold: one with a calendar day.
pub open spec fn valid_timestamp(s: Seq<char>) -> Option<i64> {
    match i64_of(s) {
        Some(t) => if day_of(t) is Some {
            Some(t)
        } else {
            None
        },
        None => None,
    }
}

/// The record that a row of six text fields stands for, or the first field
/// that is wrong: id, project, description, completed, date added, date
/// completed (empty when absent).
pub open spec fn decode_spec(f: Seq<String>) -> Result<Record, DecodeError> {
    if f.len() != 6 {
        Err(DecodeError::FieldCount)
    } else if u32_of(f[0]@) is None {
        Err(DecodeError::Id)
    } else if bool_of(f[3]@) is None {
        Err(DecodeError::Completed)
    } else if valid_timestamp(f[4]@) is None {
        Err(DecodeError::DateAdded)
    } else if f[5]@.len() != 0 && valid_timestamp(f[5]@) is None {
        Err(DecodeError::DateCompleted)
    } else {
        Ok(
            Record {
                id: u32_of(f[0]@).unwrap(),
                project: f[1],
                desc: f[2],
                completed: bool_of(f[3]@).unwrap(),
                date_added: valid_timestamp(f[4]@).unwrap(),
                date_completed: if f[5]@.len() == 0 {
                    None
                } else {
                    valid_timestamp(f[5]@)
                },
            },
        )
    }
}

fn parse_bool(s: &str) -> (r: Option<bool>)
    ensures
        r == bool_of(s@),
{
    proof {
        reveal_strlit("true");
        reveal_strlit("false");
        assert("true"@ =~= seq!['t', 'r', 'u', 'e']);
        assert("false"@ =~= seq!['f', 'a', 'l', 's', 'e']);
    }
    if str_eq(s, "true") {
        Some(true)
    } else if str_eq(s, "false") {
        Some(false)
    } else {
        None
    }
}

fn parse_timestamp(s: &str) -> (r: Option<i64>)
    ensures
        r == valid_timestamp(s@),
{
    match parse_i64(s) {
        Some(t) => match format_day(t) {
            Some(_) => Some(t),
            None => None,
        },
        None => None,
    }
}

/// Reads a record from the fields of one stored row (already trimmed).
pub fn decode_row(fields: &Vec<String>) -> (r: Result<Record, DecodeError>)
    ensures
        r == decode_spec(fields@),
{
    if fields.len() != 6 {
        return Err(DecodeError::FieldCount);
    }
    let id = match parse_u32(fields[0].as_str()) {
        Some(v) => v,
        None => return Err(DecodeError::Id),
    };
    let completed = match parse_bool(fields[3].as_str()) {
        Some(b) => b,
        None => return Err(DecodeError::Completed),
    };
    let date_added = match parse_timestamp(fields[4].as_str()) {
        Some(t) => t,
        None => return Err(DecodeError::DateAdded),
    };
    let date_completed = if fields[5].as_str().unicode_len() == 0 {
        None
    } else {
        match parse_timestamp(fields[5].as_str()) {
            Some(t) => Some(t),
            None => return Err(DecodeError::DateCompleted),
        }
    };
    Ok(
        Record {
            id,
            project: fields[1].clone(),
            desc: fields[2].clone(),
            completed,
            date_added,
            date_completed,
        },
    )
}

/// The six text fields that store a record.
pub open spec fn encode_spec(r: Record) -> Seq<Seq<char>> {
    seq![
        decimal(r.id as nat),
        r.project@,
        r.desc@,
        if r.completed {
            seq!['t', 'r', 'u', 'e']
        } else {
            seq!['f', 'a', 'l', 's', 'e']
        },
        signed_decimal(r.date_added as int),
        match r.date_completed {
            Some(t) => signed_decimal(t as int),
            None => Seq::empty(),
        },
    ]
}

/// Writes a record as the fields of one stored row.
pub fn encode_row(r: &Record) -> (out: Vec<String>)
    ensures
        views_of(out@) == encode_spec(*r),
{
    proof {
        reveal_strlit("true");
        reveal_strlit("false");
    }
    let completed = if r.completed {
        String::from_str("true")
    } else {
        String::from_str("false")
    };
    let done = match r.date_completed {
        Some(t) => i64_text(t),
        None => String::new(),
    };
    assert(completed@ =~= encode_spec(*r)[3]);
    assert(done@ =~= encode_spec(*r)[5]);
    let out = vec![
        u64_text(r.id as u64),
        r.project.clone(),
        r.desc.clone(),
        completed,
        i64_text(r.date_added),
        done,
    ];
    assert(out@.len() == 6);
    assert(views_of(out@) =~= encode_spec(*r));
    out
}

/// The names of the six columns, in order.
pub fn header_fields() -> (out: Vec<String>)
    ensures
        out@.len() == 6,
        out@[0]@ == "id"@,
        out@[1]@ == "project"@,
        out@[2]@ == "desc"@,
        out@[3]@ == "completed"@,
        out@[4]@ == "date_added"@,
        out@[5]@ == "date_completed"@,
{
    vec![
        String::from_str("id"),
        String::from_str("project"),
        String::from_str("desc"),
        String::from_str("completed"),
        String::from_str("date_added"),
        String::from_str("date_completed"),
    ]
}

/// Whether an append must first write the header row: the store is missing
/// (`None`) or holds no bytes.
pub fn needs_header(existing_len: Option<u64>) -> (r: bool)
    ensures
        r == (existing_len is None || existing_len == Some(0u64)),
{
    match existing_len {
        Some(n) => n == 0,
        None => true,
    }
}

proof fn lemma_decimal_digits(n: nat)
    ensures
        all_digits(decimal(n)),
        digits_value(decimal(n)) == n,
    decreases n,
{
    assert(digit_char(n % 10) as nat == '0' as nat + n % 10);
    if n >= 10 {
        assert((n / 10) * 10 + n % 10 == n);
        lemma_decimal_digits(n / 10);
        let d = decimal(n);
        assert(d.drop_last() == decimal(n / 10));
        assert forall|i: int| 0 <= i < d.len() implies is_digit(#[trigger] d[i]) by {
            if i < d.len() - 1 {
                assert(d[i] == decimal(n / 10)[i]);
            }
        }
        assert(d.last() == digit_char(n % 10));
        assert(digits_value(d) == digits_value(decimal(n / 10)) * 10 + n % 10);
    } else {
        let d = decimal(n);
        assert(d.drop_last() =~= Seq::<char>::empty());
        assert(n % 10 == n);
        assert(digits_value(d) == digits_value(Seq::<char>::empty()) * 10 + n);
    }
}

proof fn lemma_unsigned_round_trip(n: nat, limit: nat)
    requires
        n <= limit,
    ensures
        unsigned_value(decimal(n), limit) == Some(n),
        decimal(n)[0] != '-',
{
    lemma_decimal_digits(n);
    assert(is_digit(decimal(n)[0]));
}

/// Decoding the fields that encode a record gives the record back, when
/// its dates are ones that chrono can represent.
pub proof fn lemma_decode_encode(r: Record, f: Seq<String>)
    requires
        views_of(f) == encode_spec(r),
        day_of(r.date_added) is Some,
        r.date_completed matches Some(t) ==> day_of(t) is Some,
    ensures
        decode_spec(f) matches Ok(d) && d.id == r.id && d.project@ == r.project@ && d.desc@
            == r.desc@ && d.completed == r.completed && d.date_added == r.date_added
            && d.date_completed == r.date_completed,
{
    assert(f.len() == views_of(f).len());
    assert(f[0]@ == views_of(f)[0]);
    assert(f[1]@ == views_of(f)[1]);
    assert(f[2]@ == views_of(f)[2]);
    assert(f[3]@ == views_of(f)[3]);
    assert(f[4]@ == views_of(f)[4]);
    assert(f[5]@ == views_of(f)[5]);
    lemma_unsigned_round_trip(r.id as nat, u32::MAX as nat);
    assert(u32_of(f[0]@) == Some(r.id));
    lemma_signed_round_trip(r.date_added);
    if let Some(t) = r.date_completed {
        lemma_signed_round_trip(t);
        assert(signed_decimal(t as int).len() > 0);
    }
}

proof fn lemma_signed_round_trip(t: i64)
    ensures
        i64_of(signed_decimal(t as int)) == Some(t),
        signed_decimal(t as int).len() > 0,
{
    lemma_decimal_digits(if t < 0 { (-t) as nat } else { t as nat });
    if t < 0 {
        let s = signed_decimal(t as int);
        assert(s.drop_first() =~= decimal((-t) as nat));
    } else {
        lemma_unsigned_round_trip(t as nat, i64::MAX as nat);
    }
}

} // verus!
