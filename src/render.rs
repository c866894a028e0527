//! The fixed-width table: a header, then for each shown record its wrapped
//! description lines followed by a separator rule.
use vstd::prelude::*;
use crate::record::Record;
use crate::text::{decimal, lemma_views_push, pad_right, push_padded, u64_text, views_of};

verus! {

/// Width of the description column; descriptions are wrapped to it.
pub const DESC_WIDTH: usize = 28;

/// Number of dashes in a separator rule.
pub const RULE_WIDTH: usize = 103;

/// The lines of `s` wrapped to at most `width` columns, as textwrap's `wrap` gives them.
pub uninterp spec fn wrapped_lines(s: Seq<char>, width: usize) -> Seq<Seq<char>>;

/// Relies on `textwrap::wrap`: the lines depend on the text and the width alone.
#[verifier::external_body]
fn wrap_text(s: &str, width: usize) -> (r: Vec<String>)
    ensures
        views_of(r@) == wrapped_lines(s@, width),
{
    textwrap::wrap(s, width).into_iter().map(|c| c.into_owned()).collect()
}

/// The calendar day (UTC) of a timestamp written as `YYYY-MM-DD`, when chrono
/// can represent the timestamp.
pub uninterp spec fn day_of(secs: i64) -> Option<Seq<char>>;

/// The characters of an optional string.
pub open spec fn opt_view(o: Option<String>) -> Option<Seq<char>> {
    match o {
        Some(s) => Some(s@),
        None => None,
    }
}

/// Relies on `chrono::DateTime::from_timestamp` (which is `None` outside
/// chrono's range) and on its `format("%Y-%m-%d")`: the text depends on the
/// timestamp alone.
#[verifier::external_body]
pub(crate) fn format_day(secs: i64) -> (r: Option<String>)
    ensures
        opt_view(r) == day_of(secs),
{
    chrono::DateTime::from_timestamp(secs, 0).map(|d| d.format("%Y-%m-%d").to_string())
}

/// The day of a timestamp, blank when it has none.
pub open spec fn day_or_blank(secs: i64) -> Seq<char> {
    match day_of(secs) {
        Some(t) => t,
        None => Seq::empty(),
    }
}

/// The day of an optional completion date, blank when absent.
pub open spec fn done_text(d: Option<i64>) -> Seq<char> {
    match d {
        Some(secs) => day_or_blank(secs),
        None => Seq::empty(),
    }
}

/// `true` or `false`.
pub open spec fn bool_text(b: bool) -> Seq<char> {
    if b {
        seq!['t', 'r', 'u', 'e']
    } else {
        seq!['f', 'a', 'l', 's', 'e']
    }
}

/// One table row: six left-justified cells of widths 3, 15, 28, 11, 12 and 15
/// between `|` borders.
pub open spec fn row_spec(
    id: Seq<char>,
    project: Seq<char>,
    desc: Seq<char>,
    completed: Seq<char>,
    added: Seq<char>,
    done: Seq<char>,
) -> Seq<char> {
    seq!['|', ' '] + pad_right(id, 3) + seq![' ', '|', ' '] + pad_right(project, 15) + seq![
        ' ',
        '|',
        ' ',
    ] + pad_right(desc, 28) + seq![' ', '|', ' '] + pad_right(completed, 11) + seq![' ', '|', ' ']
        + pad_right(added, 12) + seq![' ', '|', ' '] + pad_right(done, 15) + seq![' ', '|']
}

/// Formats one table row.
pub fn table_row(id: &str, project: &str, desc: &str, completed: &str, added: &str, done: &str) -> (r:
    String)
    ensures
        r@ == row_spec(id@, project@, desc@, completed@, added@, done@),
{
    proof {
        reveal_strlit("| ");
        reveal_strlit(" | ");
        reveal_strlit(" |");
    }
    let mut out = String::from_str("| ");
    push_padded(&mut out, id, 3);
    out.append(" | ");
    push_padded(&mut out, project, 15);
    out.append(" | ");
    push_padded(&mut out, desc, DESC_WIDTH);
    out.append(" | ");
    push_padded(&mut out, completed, 11);
    out.append(" | ");
    push_padded(&mut out, added, 12);
    out.append(" | ");
    push_padded(&mut out, done, 15);
    out.append(" |");
    assert(out@ =~= row_spec(id@, project@, desc@, completed@, added@, done@));
    out
}

/// The separator rule.
pub open spec fn rule_spec() -> Seq<char> {
    Seq::new(RULE_WIDTH as nat, |i: int| '-')
}

/// Formats the separator rule.
pub fn rule_line() -> (r: String)
    ensures
        r@ == rule_spec(),
{
    proof {
        reveal_strlit("-");
        assert("-"@ =~= seq!['-']);
    }
    let mut out = String::new();
    let mut k: usize = 0;
    assert(out@ =~= Seq::new(0, |i: int| '-'));
    while k < RULE_WIDTH
        invariant
            k <= RULE_WIDTH,
            "-"@ == seq!['-'],
            out@ == Seq::new(k as nat, |i: int| '-'),
        decreases RULE_WIDTH - k,
    {
        out.append("-");
        assert(out@ =~= Seq::new((k + 1) as nat, |i: int| '-'));
        k = k + 1;
    }
    out
}

/// The column titles row.
pub open spec fn header_spec() -> Seq<char> {
    row_spec(
        seq!['I', 'D'],
        seq!['P', 'r', 'o', 'j', 'e', 'c', 't'],
        seq!['D', 'e', 's', 'c', 'r', 'i', 'p', 't', 'i', 'o', 'n'],
        seq!['C', 'o', 'm', 'p', 'l', 'e', 't', 'e', 'd'],
        seq!['D', 'a', 't', 'e', ' ', 'A', 'd', 'd', 'e', 'd'],
        seq!['D', 'a', 't', 'e', ' ', 'C', 'o', 'm', 'p', 'l', 'e', 't', 'e', 'd'],
    )
}

/// The lines above the first record: a rule, the column titles, a rule.
pub fn header_lines() -> (r: Vec<String>)
    ensures
        views_of(r@) == seq![rule_spec(), header_spec(), rule_spec()],
{
    proof {
        reveal_strlit("ID");
        reveal_strlit("Project");
        reveal_strlit("Description");
        reveal_strlit("Completed");
        reveal_strlit("Date Added");
        reveal_strlit("Date Completed");
    }
    let title = table_row("ID", "Project", "Description", "Completed", "Date Added", "Date Completed");
    assert(title@ =~= header_spec());
    let mut out: Vec<String> = Vec::new();
    out.push(rule_line());
    out.push(title);
    out.push(rule_line());
    assert(views_of(out@) =~= seq![rule_spec(), header_spec(), rule_spec()]);
    out
}

/// The lines of a shown record, given its description's wrapped lines and the
/// texts of its two dates: the first line carries every column, each further
/// line only its piece of the description, and a rule closes the record.
pub open spec fn block_spec(
    r: Record,
    wrapped: Seq<Seq<char>>,
    added: Seq<char>,
    done: Seq<char>,
) -> Seq<Seq<char>> {
    Seq::new(
        wrapped.len(),
        |k: int|
            if k == 0 {
                row_spec(decimal(r.id as nat), r.project@, wrapped[0], bool_text(r.completed), added, done)
            } else {
                row_spec(Seq::empty(), Seq::empty(), wrapped[k], Seq::empty(), Seq::empty(), Seq::empty())
            },
    ).push(rule_spec())
}

/// Whether a record appears in the table: completed ones only in verbose mode.
pub open spec fn shown(r: Record, verbose: bool) -> bool {
    !r.completed || verbose
}

/// Lays out one record from its wrapped description lines and date texts;
/// a hidden record gives no lines.
pub fn record_lines(r: &Record, verbose: bool, wrapped: &Vec<String>, added: &str, done: &str) -> (out:
    Vec<String>)
    ensures
        shown(*r, verbose) ==> views_of(out@) == block_spec(*r, views_of(wrapped@), added@, done@),
        !shown(*r, verbose) ==> out@.len() == 0,
{
    let mut out: Vec<String> = Vec::new();
    if r.completed && !verbose {
        return out;
    }
    let ghost w = views_of(wrapped@);
    let id_text = u64_text(r.id as u64);
    let completed_text = if r.completed {
        String::from_str("true")
    } else {
        String::from_str("false")
    };
    proof {
        reveal_strlit("true");
        reveal_strlit("false");
        reveal_strlit("");
        assert(completed_text@ =~= bool_text(r.completed));
        assert(""@ =~= Seq::<char>::empty());
        assert(views_of(out@) =~= block_spec(*r, w, added@, done@).subrange(0, 0));
    }
    let mut k: usize = 0;
    while k < wrapped.len()
        invariant
            w == views_of(wrapped@),
            k <= wrapped@.len(),
            id_text@ == decimal(r.id as nat),
            completed_text@ == bool_text(r.completed),
            ""@ == Seq::<char>::empty(),
            views_of(out@) == block_spec(*r, w, added@, done@).subrange(0, k as int),
        decreases wrapped@.len() - k,
    {
        let line = if k == 0 {
            table_row(id_text.as_str(), r.project.as_str(), wrapped[k].as_str(), completed_text.as_str(), added, done)
        } else {
            table_row("", "", wrapped[k].as_str(), "", "", "")
        };
        let ghost prev = out@;
        out.push(line);
        proof {
            lemma_views_push(prev, line);
            assert(w[k as int] == wrapped@[k as int]@);
            assert(views_of(out@) =~= block_spec(*r, w, added@, done@).subrange(0, k + 1));
        }
        k = k + 1;
    }
    let rule = rule_line();
    let ghost prev = out@;
    out.push(rule);
    proof {
        lemma_views_push(prev, rule);
        assert(block_spec(*r, w, added@, done@).subrange(0, k as int) =~= block_spec(*r, w, added@, done@).drop_last());
        assert(views_of(out@) =~= block_spec(*r, w, added@, done@));
    }
    out
}

/// The lines of one record as the table shows it.
pub open spec fn record_block(r: Record, verbose: bool) -> Seq<Seq<char>> {
    if shown(r, verbose) {
        block_spec(r, wrapped_lines(r.desc@, DESC_WIDTH), day_or_blank(r.date_added), done_text(r.date_completed))
    } else {
        Seq::empty()
    }
}

/// Lays out one record: its description wrapped to the description column,
/// its dates as calendar days.
pub fn render_record(r: &Record, verbose: bool) -> (out: Vec<String>)
    ensures
        views_of(out@) == record_block(*r, verbose),
{
    let wrapped = wrap_text(r.desc.as_str(), DESC_WIDTH);
    let added = match format_day(r.date_added) {
        Some(t) => t,
        None => String::new(),
    };
    let done = match r.date_completed {
        Some(secs) => match format_day(secs) {
            Some(t) => t,
            None => String::new(),
        },
        None => String::new(),
    };
    assert(added@ == day_or_blank(r.date_added));
    assert(done@ == done_text(r.date_completed));
    let out = record_lines(r, verbose, &wrapped, added.as_str(), done.as_str());
    proof {
        if !shown(*r, verbose) {
            assert(views_of(out@) =~= Seq::<Seq<char>>::empty());
        }
    }
    out
}

/// The lines of every record in order, each as `record_block` lays it out.
pub open spec fn body_spec(s: Seq<Record>, verbose: bool) -> Seq<Seq<char>>
    decreases s.len(),
{
    if s.len() == 0 {
        Seq::empty()
    } else {
        body_spec(s.drop_last(), verbose) + record_block(s.last(), verbose)
    }
}

/// The whole table: the header lines, then each record's lines in order.
pub fn render_table(records: &Vec<Record>, verbose: bool) -> (out: Vec<String>)
    ensures
        views_of(out@) == seq![rule_spec(), header_spec(), rule_spec()] + body_spec(records@, verbose),
{
    let mut out = header_lines();
    let ghost head = views_of(out@);
    let mut i: usize = 0;
    assert(records@.subrange(0, 0) =~= Seq::<Record>::empty());
    assert(views_of(out@) =~= head + body_spec(records@.subrange(0, 0), verbose));
    while i < records.len()
        invariant
            i <= records@.len(),
            head == seq![rule_spec(), header_spec(), rule_spec()],
            views_of(out@) == head + body_spec(records@.subrange(0, i as int), verbose),
        decreases records@.len() - i,
    {
        let mut block = render_record(&records[i], verbose);
        let ghost before = out@;
        let ghost b = block@;
        out.append(&mut block);
        assert(records@.subrange(0, i + 1).drop_last() =~= records@.subrange(0, i as int));
        assert(views_of(before + b) =~= views_of(before) + views_of(b));
        assert(views_of(out@) =~= head + body_spec(records@.subrange(0, i + 1), verbose));
        i = i + 1;
    }
    assert(records@.subrange(0, records@.len() as int) =~= records@);
    out
}

} // verus!
