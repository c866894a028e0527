//! Character-sequence helpers shared by the query, record and table modules.
use vstd::prelude::*;

verus! {

/// True when `a` and `b` hold the same characters.
pub fn str_eq(a: &str, b: &str) -> (r: bool)
    ensures
        r == (a@ == b@),
{
    let n = a.unicode_len();
    if n != b.unicode_len() {
        return false;
    }
    let mut i: usize = 0;
    while i < n
        invariant
            n == a@.len(),
            n == b@.len(),
            i <= n,
            a@.subrange(0, i as int) == b@.subrange(0, i as int),
        decreases n - i,
    {
        if a.get_char(i) != b.get_char(i) {
            return false;
        }
        assert(a@.subrange(0, i + 1) =~= a@.subrange(0, i as int).push(a@[i as int]));
        assert(b@.subrange(0, i + 1) =~= b@.subrange(0, i as int).push(b@[i as int]));
        i = i + 1;
    }
    assert(a@ =~= a@.subrange(0, n as int));
    assert(b@ =~= b@.subrange(0, n as int));
    true
}

/// `needle` occurs in `hay` as a contiguous run of characters.
pub open spec fn is_substring(needle: Seq<char>, hay: Seq<char>) -> bool {
    exists|i: int|
        0 <= i && i + needle.len() <= hay.len() && #[trigger] hay.subrange(i, i + needle.len())
            == needle
}

/// True when `needle` occurs in `hay` starting at character `at`.
fn occurs_at(hay: &str, needle: &str, at: usize, h: usize) -> (r: bool)
    requires
        h == hay@.len(),
        at + needle@.len() <= hay@.len(),
    ensures
        r == (hay@.subrange(at as int, at + needle@.len()) == needle@),
{
    let m = needle.unicode_len();
    let mut k: usize = 0;
    while k < m
        invariant
            m == needle@.len(),
            at + m <= hay@.len(),
            k <= m,
            h == hay@.len(),
            hay@.subrange(at as int, at + k) == needle@.subrange(0, k as int),
        decreases m - k,
    {
        if hay.get_char(at + k) != needle.get_char(k) {
            assert(hay@.subrange(at as int, at + m)[k as int] != needle@[k as int]);
            return false;
        }
        assert(hay@.subrange(at as int, at + k + 1) =~= hay@.subrange(at as int, at + k).push(
            hay@[at + k],
        ));
        assert(needle@.subrange(0, k + 1) =~= needle@.subrange(0, k as int).push(needle@[k as int]));
        k = k + 1;
    }
    assert(needle@ =~= needle@.subrange(0, m as int));
    true
}

/// True when `needle` occurs somewhere in `hay` (the empty needle occurs everywhere).
pub fn contains_text(hay: &str, needle: &str) -> (r: bool)
    ensures
        r == is_substring(needle@, hay@),
{
    let h = hay.unicode_len();
    let m = needle.unicode_len();
    if m > h {
        return false;
    }
    let mut i: usize = 0;
    while i <= h - m
        invariant
            h == hay@.len(),
            m == needle@.len(),
            m <= h,
            i <= h - m,
            forall|j: int| 0 <= j < i ==> #[trigger] hay@.subrange(j, j + m) != needle@,
        decreases h - m - i,
    {
        if occurs_at(hay, needle, i, h) {
            return true;
        }
        if i == h - m {
            return false;
        }
        i = i + 1;
    }
    false
}

/// The characters of `s` with every character that std's `to_lowercase`
/// maps to a lower-case form replaced by it.
pub uninterp spec fn lower_of(s: Seq<char>) -> Seq<char>;

/// Relies on `str::to_lowercase`: the result depends on the characters alone.
#[verifier::external_body]
pub(crate) fn lowercase(s: &str) -> (r: String)
    ensures
        r@ == lower_of(s@),
{
    s.to_lowercase()
}

/// The words of `s`: its maximal runs of non-whitespace characters, in order.
pub uninterp spec fn words_of(s: Seq<char>) -> Seq<Seq<char>>;

/// Relies on `str::split_whitespace`: the words depend on the characters alone.
#[verifier::external_body]
pub(crate) fn split_words(s: &str) -> (r: Vec<String>)
    ensures
        r@.len() == words_of(s@).len(),
        forall|i: int| 0 <= i < r@.len() ==> #[trigger] r@[i]@ == words_of(s@)[i],
{
    s.split_whitespace().map(|w| w.to_string()).collect()
}

/// The words `w` joined with one space between neighbours.
pub open spec fn join_spaced(w: Seq<Seq<char>>) -> Seq<char>
    decreases w.len(),
{
    if w.len() == 0 {
        Seq::empty()
    } else if w.len() == 1 {
        w[0]
    } else {
        join_spaced(w.drop_last()) + seq![' '] + w.last()
    }
}

/// The character sequences of a sequence of strings.
pub open spec fn views_of(w: Seq<String>) -> Seq<Seq<char>> {
    w.map_values(|s: String| s@)
}

/// Viewing commutes with pushing one more string.
pub proof fn lemma_views_push(v: Seq<String>, x: String)
    ensures
        views_of(v.push(x)) == views_of(v).push(x@),
{
    assert(views_of(v.push(x)) =~= views_of(v).push(x@));
}

/// Joins `words[from..]` with single spaces.
pub fn join_from(words: &Vec<String>, from: usize) -> (r: String)
    ensures
        from <= words@.len() ==> r@ == join_spaced(
            views_of(words@.subrange(from as int, words@.len() as int)),
        ),
        from > words@.len() ==> r@.len() == 0,
{
    let mut out = String::new();
    if from >= words.len() {
        proof {
            if from == words@.len() {
                assert(views_of(words@.subrange(from as int, words@.len() as int)) =~= Seq::<Seq<char>>::empty());
            }
        }
        return out;
    }
    proof {
        reveal_strlit(" ");
        assert(" "@ =~= seq![' ']);
        assert(views_of(words@.subrange(from as int, from as int))
            =~= Seq::<Seq<char>>::empty());
    }
    let mut i: usize = from;
    while i < words.len()
        invariant
            from < words@.len(),
            from <= i <= words@.len(),
            " "@ == seq![' '],
            out@ == join_spaced(views_of(words@.subrange(from as int, i as int))),
        decreases words@.len() - i,
    {
        let ghost before = views_of(words@.subrange(from as int, i as int));
        let ghost after = views_of(words@.subrange(from as int, i + 1));
        assert(after.drop_last() =~= before);
        if i > from {
            out.append(" ");
        }
        out.append(words[i].as_str());
        proof {
            assert(after.last() == words@[i as int]@);
            if i == from {
                assert(after.len() == 1);
                assert(out@ =~= after[0]);
            } else {
                assert(after.len() >= 2);
                assert(join_spaced(after) == join_spaced(after.drop_last()) + seq![' ']
                    + after.last());
                assert(out@ =~= join_spaced(before) + seq![' '] + after.last());
            }
        }
        i = i + 1;
    }
    out
}

/// The character of the decimal digit `d`.
pub open spec fn digit_char(d: nat) -> char {
    (('0' as nat) + d) as char
}

/// The decimal digits of `n`, most significant first, without leading zeros.
pub open spec fn decimal(n: nat) -> Seq<char>
    decreases n,
{
    if n < 10 {
        seq![digit_char(n)]
    } else {
        decimal(n / 10).push(digit_char(n % 10))
    }
}

/// The decimal text of an integer: a minus sign before the digits when negative.
pub open spec fn signed_decimal(n: int) -> Seq<char> {
    if n < 0 {
        seq!['-'] + decimal((-n) as nat)
    } else {
        decimal(n as nat)
    }
}

fn digit_text(d: u64) -> (r: String)
    requires
        d < 10,
    ensures
        r@ == seq![digit_char(d as nat)],
{
    let s = if d == 0 { "0" } else if d == 1 { "1" } else if d == 2 { "2" } else if d == 3 {
        "3"
    } else if d == 4 { "4" } else if d == 5 { "5" } else if d == 6 { "6" } else if d == 7 {
        "7"
    } else if d == 8 { "8" } else { "9" };
    proof {
        reveal_strlit("0");
        reveal_strlit("1");
        reveal_strlit("2");
        reveal_strlit("3");
        reveal_strlit("4");
        reveal_strlit("5");
        reveal_strlit("6");
        reveal_strlit("7");
        reveal_strlit("8");
        reveal_strlit("9");
    }
    let r = String::from_str(s);
    assert(r@ =~= seq![digit_char(d as nat)]);
    r
}

/// The decimal text of `n`.
pub fn u64_text(n: u64) -> (r: String)
    ensures
        r@ == decimal(n as nat),
{
    let mut s = digit_text(n % 10);
    let mut m: u64 = n / 10;
    assert(n >= 10 ==> decimal(n as nat) == decimal(m as nat) + s@) by {
        if n >= 10 {
            assert(decimal(n as nat) =~= decimal(m as nat) + s@);
        }
    }
    while m > 0
        invariant
            m > 0 ==> decimal(n as nat) == decimal(m as nat) + s@,
            m == 0 ==> decimal(n as nat) == s@,
        decreases m,
    {
        let d = digit_text(m % 10);
        let ghost old_s = s@;
        s = d.concat(s.as_str());
        proof {
            if m < 10 {
                assert(decimal(m as nat) == seq![digit_char(m as nat)]);
                assert(s@ =~= decimal(m as nat) + old_s);
            } else {
                assert(decimal(m as nat) == decimal((m / 10) as nat).push(digit_char((m % 10) as nat)));
                assert(decimal(m as nat) + old_s =~= decimal((m / 10) as nat) + s@);
            }
        }
        m = m / 10;
    }
    s
}

/// The decimal text of `n`, with a leading minus sign when negative.
pub fn i64_text(n: i64) -> (r: String)
    ensures
        r@ == signed_decimal(n as int),
{
    if n < 0 {
        let mag: u64 = if n == i64::MIN { 9223372036854775808u64 } else { (-n) as u64 };
        let digits = u64_text(mag);
        let r = String::from_str("-").concat(digits.as_str());
        proof {
            reveal_strlit("-");
        }
        r
    } else {
        u64_text(n as u64)
    }
}

/// `s` followed by spaces up to `width` characters; unchanged when already that long.
pub open spec fn pad_right(s: Seq<char>, width: nat) -> Seq<char> {
    if s.len() >= width {
        s
    } else {
        s + Seq::new((width - s.len()) as nat, |i: int| ' ')
    }
}

/// Appends `s` to `out`, left-justified in a field of `width` characters.
pub fn push_padded(out: &mut String, s: &str, width: usize)
    ensures
        final(out)@ == old(out)@ + pad_right(s@, width as nat),
{
    let ghost start = out@;
    out.append(s);
    let mut k: usize = s.unicode_len();
    proof {
        reveal_strlit(" ");
        assert(" "@ =~= seq![' ']);
    }
    assert(out@ =~= start + s@ + Seq::new(0, |i: int| ' '));
    while k < width
        invariant
            s@.len() <= k,
            k <= width || k == s@.len(),
            " "@ == seq![' '],
            out@ == start + s@ + Seq::new((k - s@.len()) as nat, |i: int| ' '),
        decreases width - k,
    {
        out.append(" ");
        assert(out@ =~= start + s@ + Seq::new((k + 1 - s@.len()) as nat, |i: int| ' '));
        k = k + 1;
    }
    assert(out@ =~= start + pad_right(s@, width as nat));
}

} // verus!
