//! Text utilities: characters of a string, white space, and truncation to a
//! display width.

use unicode_width::{UnicodeWidthChar, UnicodeWidthStr};
use vstd::prelude::*;
use vstd::std_specs::iter::IteratorSpec;

verus! {

/// The displayed width of a character, `None` for a control character.
pub uninterp spec fn char_width_of(c: char) -> Option<usize>;

/// The displayed width of a string.
pub uninterp spec fn str_width_of(s: Seq<char>) -> usize;

/// Relies on `unicode_width::UnicodeWidthChar::width`: the column width of a
/// character, or `None` for a control character.
#[verifier::external_body]
fn char_width(c: char) -> (r: Option<usize>)
    ensures
        r == char_width_of(c),
{
    c.width()
}

/// Relies on `unicode_width::UnicodeWidthStr::width`: the displayed width of a
/// string, which is zero for the empty string.
#[verifier::external_body]
fn str_width(s: &str) -> (r: usize)
    ensures
        r == str_width_of(s@),
        s@.len() == 0 ==> r == 0,
{
    s.width()
}

/// Relies on `String::push` from std: appends one character.
#[verifier::external_body]
pub(crate) fn push_char(s: &mut String, c: char)
    ensures
        final(s)@ == old(s)@.push(c),
{
    s.push(c)
}

/// The characters of a string.
pub fn chars_of(s: &str) -> (r: Vec<char>)
    ensures
        r@ == s@,
{
    let mut it = s.chars();
    let mut v: Vec<char> = Vec::new();
    loop
        invariant
            v@ + it.remaining() == s@,
            it.obeys_prophetic_iter_laws(),
        ensures
            v@ == s@,
        decreases s@.len() - v@.len(),
    {
        let ghost before = it.remaining();
        match it.next() {
            Some(c) => {
                v.push(c);
                assert(v@ + it.remaining() =~= s@) by {
                    assert(before =~= seq![c] + it.remaining());
                }
            },
            None => {
                assert(it.remaining().len() == 0);
                assert(v@ =~= s@);
                break ;
            },
        }
    }
    v
}

/// A string holding the characters `cs[from..to]`.
pub fn string_of(cs: &Vec<char>, from: usize, to: usize) -> (r: String)
    requires
        from <= to <= cs@.len(),
    ensures
        r@ == cs@.subrange(from as int, to as int),
{
    let mut r = String::new();
    let mut i: usize = from;
    while i < to
        invariant
            from <= i <= to,
            to <= cs@.len(),
            r@ == cs@.subrange(from as int, i as int),
        decreases to - i,
    {
        push_char(&mut r, cs[i]);
        assert(r@ =~= cs@.subrange(from as int, i + 1));
        i += 1;
    }
    r
}

/// Unicode white space, as `char::is_whitespace` has it.
pub open spec fn is_space(c: char) -> bool {
    ||| ('\u{9}' <= c <= '\u{d}')
    ||| c == ' '
    ||| c == '\u{85}'
    ||| c == '\u{a0}'
    ||| c == '\u{1680}'
    ||| ('\u{2000}' <= c <= '\u{200a}')
    ||| c == '\u{2028}'
    ||| c == '\u{2029}'
    ||| c == '\u{202f}'
    ||| c == '\u{205f}'
    ||| c == '\u{3000}'
}

/// Whether `c` is Unicode white space.
pub fn is_space_char(c: char) -> (r: bool)
    ensures
        r == is_space(c),
{
    ('\u{9}' <= c && c <= '\u{d}') || c == ' ' || c == '\u{85}' || c == '\u{a0}' || c == '\u{1680}'
        || ('\u{2000}' <= c && c <= '\u{200a}') || c == '\u{2028}' || c == '\u{2029}' || c
        == '\u{202f}' || c == '\u{205f}' || c == '\u{3000}'
}

/// `s` without its trailing white space.
pub open spec fn trim_end(s: Seq<char>) -> Seq<char>
    decreases s.len(),
{
    if s.len() > 0 && is_space(s.last()) {
        trim_end(s.drop_last())
    } else {
        s
    }
}

/// `s` without its trailing occurrences of `c`.
pub open spec fn trim_end_char(s: Seq<char>, c: char) -> Seq<char>
    decreases s.len(),
{
    if s.len() > 0 && s.last() == c {
        trim_end_char(s.drop_last(), c)
    } else {
        s
    }
}

/// Number of leading characters of `cs` kept by trimming trailing white space.
pub fn trimmed_end_len(cs: &Vec<char>, to: usize) -> (k: usize)
    requires
        to <= cs@.len(),
    ensures
        k <= to,
        cs@.subrange(0, k as int) == trim_end(cs@.subrange(0, to as int)),
{
    let mut k: usize = to;
    while k > 0 && is_space_char(cs[k - 1])
        invariant
            k <= to <= cs@.len(),
            trim_end(cs@.subrange(0, k as int)) == trim_end(cs@.subrange(0, to as int)),
        decreases k,
    {
        assert(cs@.subrange(0, k as int).drop_last() =~= cs@.subrange(0, k - 1));
        k -= 1;
    }
    k
}

/// Width of a character as counted when truncating: zero for a control character.
pub open spec fn col_width(c: char) -> int {
    match char_width_of(c) {
        Some(w) => w as int,
        None => 0,
    }
}

/// Width of the first `k` characters of `s`.
pub open spec fn prefix_width(s: Seq<char>, k: int) -> int
    decreases k,
{
    if k <= 0 {
        0
    } else {
        prefix_width(s, k - 1) + col_width(s[k - 1])
    }
}

/// `k` characters fit in `budget` columns and one more would not.
pub open spec fn is_fitting_len(s: Seq<char>, budget: int, k: int) -> bool {
    &&& 0 <= k <= s.len()
    &&& prefix_width(s, k) <= budget
    &&& k == s.len() || prefix_width(s, k + 1) > budget
}

/// Columns left for text once an ellipsis is reserved.
pub open spec fn ellipsis_budget(max_width: int) -> int {
    if max_width >= 3 {
        max_width - 3
    } else {
        0
    }
}

/// `r` is `s` cut to `max_width` columns, with an ellipsis where it was cut.
pub open spec fn is_truncation(s: Seq<char>, max_width: int, r: Seq<char>) -> bool {
    if str_width_of(s) <= max_width {
        r == s
    } else {
        exists|k: int|
            #[trigger] is_fitting_len(s, ellipsis_budget(max_width), k) && r == s.take(k) + seq!['.', '.', '.']
    }
}

/// Truncates a string to fit within a display width, ending it with "..."
/// when it is cut.
pub fn truncate_str(s: &str, max_width: usize) -> (r: String)
    ensures
        is_truncation(s@, max_width as int, r@),
{
    let width = str_width(s);
    let cs = chars_of(s);
    if width <= max_width {
        let r = string_of(&cs, 0, cs.len());
        assert(cs@.subrange(0, cs@.len() as int) =~= cs@);
        return r;
    }
    let target: usize = if max_width >= 3 {
        max_width - 3
    } else {
        0
    };
    let mut current: usize = 0;
    let mut k: usize = 0;
    while k < cs.len()
        invariant
            k <= cs@.len(),
            current as int == prefix_width(cs@, k as int),
            current <= target,
        ensures
            k <= cs@.len(),
            current as int == prefix_width(cs@, k as int),
            current <= target,
            k == cs@.len() || prefix_width(cs@, k + 1) > target,
        decreases cs@.len() - k,
    {
        let w: usize = match char_width(cs[k]) {
            Some(w) => w,
            None => 0,
        };
        if w > target - current {
            break ;
        }
        current = current + w;
        k += 1;
    }
    let mut r = string_of(&cs, 0, k);
    push_char(&mut r, '.');
    push_char(&mut r, '.');
    push_char(&mut r, '.');
    assert(cs@.subrange(0, k as int) =~= cs@.take(k as int));
    assert(r@ =~= cs@.take(k as int) + seq!['.', '.', '.']);
    assert(is_fitting_len(s@, ellipsis_budget(max_width as int), k as int) && r@ == s@.take(k as int) + seq!['.', '.', '.']);
    r
}

/// The views of a sequence of strings.
pub open spec fn views(v: Seq<String>) -> Seq<Seq<char>> {
    v.map_values(|x: String| x@)
}

/// The pieces of `s` between occurrences of `sep`, as `str::split` yields them
/// (one more piece than there are separators).
pub open spec fn split_on(s: Seq<char>, sep: char) -> Seq<Seq<char>>
    decreases s.len(),
{
    if s.len() == 0 {
        seq![Seq::empty()]
    } else {
        let p = split_on(s.drop_last(), sep);
        if s.last() == sep {
            p.push(Seq::empty())
        } else {
            p.update(p.len() - 1, p.last().push(s.last()))
        }
    }
}

proof fn lemma_split_on_nonempty(s: Seq<char>, sep: char)
    ensures
        split_on(s, sep).len() >= 1,
    decreases s.len(),
{
    if s.len() > 0 {
        lemma_split_on_nonempty(s.drop_last(), sep);
    }
}

/// `l` without one trailing carriage return.
pub open spec fn strip_cr(l: Seq<char>) -> Seq<char> {
    if l.len() > 0 && l.last() == '\r' {
        l.drop_last()
    } else {
        l
    }
}

/// The lines of `s`, as `str::lines` yields them: split at `\n`, a `\r`
/// before it dropped, no final empty line.
pub open spec fn lines(s: Seq<char>) -> Seq<Seq<char>> {
    let p = split_on(s, '\n');
    let body = p.drop_last().map_values(|l: Seq<char>| strip_cr(l));
    if p.last().len() == 0 {
        body
    } else {
        body.push(p.last())
    }
}

/// The characters of `cs` that the ranges `rs` delimit.
pub open spec fn ranges_view(cs: Seq<char>, rs: Seq<(usize, usize)>) -> Seq<Seq<char>> {
    rs.map_values(|r: (usize, usize)| cs.subrange(r.0 as int, r.1 as int))
}

/// Every range of `rs` lies within `cs`.
pub open spec fn ranges_ok(cs: Seq<char>, rs: Seq<(usize, usize)>) -> bool {
    forall|t: int| 0 <= t < rs.len() ==> (#[trigger] rs[t]).0 <= rs[t].1 <= cs.len()
}

/// The ranges of the pieces of `cs` between occurrences of `sep`.
pub fn split_ranges(cs: &Vec<char>, sep: char) -> (r: Vec<(usize, usize)>)
    ensures
        ranges_ok(cs@, r@),
        ranges_view(cs@, r@) == split_on(cs@, sep),
{
    let mut rs: Vec<(usize, usize)> = Vec::new();
    let mut start: usize = 0;
    let mut i: usize = 0;
    assert(cs@.take(0) =~= Seq::<char>::empty());
    assert(ranges_view(cs@, rs@).push(cs@.subrange(0, 0)) =~= split_on(cs@.take(0), sep));
    while i < cs.len()
        invariant
            start <= i <= cs@.len(),
            ranges_ok(cs@, rs@),
            ranges_view(cs@, rs@).push(cs@.subrange(start as int, i as int)) == split_on(
                cs@.take(i as int),
                sep,
            ),
        decreases cs@.len() - i,
    {
        let ghost before = ranges_view(cs@, rs@).push(cs@.subrange(start as int, i as int));
        assert(cs@.take(i + 1).drop_last() =~= cs@.take(i as int));
        let ghost old_rs = rs@;
        let ghost old_start = start;
        if cs[i] == sep {
            rs.push((start, i));
            start = i + 1;
            assert(ranges_view(cs@, rs@) =~= ranges_view(cs@, old_rs).push(
                cs@.subrange(old_start as int, i as int),
            ));
            assert(cs@.subrange(start as int, i + 1) =~= Seq::<char>::empty());
            assert(ranges_view(cs@, rs@).push(cs@.subrange(start as int, i + 1)) =~= before.push(
                Seq::empty(),
            ));
        } else {
            assert(cs@.subrange(start as int, i + 1) =~= cs@.subrange(start as int, i as int).push(
                cs@[i as int],
            ));
            assert(ranges_view(cs@, rs@).push(cs@.subrange(start as int, i + 1)) =~= before.update(
                before.len() - 1,
                before.last().push(cs@[i as int]),
            ));
        }
        i += 1;
    }
    rs.push((start, i));
    assert(cs@.take(i as int) =~= cs@);
    assert(ranges_view(cs@, rs@) =~= split_on(cs@, sep));
    rs
}

/// The ranges of the lines of `cs`.
pub fn line_ranges(cs: &Vec<char>) -> (r: Vec<(usize, usize)>)
    ensures
        ranges_ok(cs@, r@),
        ranges_view(cs@, r@) == lines(cs@),
{
    let pieces = split_ranges(cs, '\n');
    proof {
        lemma_split_on_nonempty(cs@, '\n');
    }
    let ghost p = split_on(cs@, '\n');
    let mut out: Vec<(usize, usize)> = Vec::new();
    let mut t: usize = 0;
    assert(pieces@.len() == p.len());
    while t < pieces.len() - 1
        invariant
            pieces@.len() == p.len(),
            p.len() >= 1,
            t + 1 <= pieces@.len(),
            ranges_ok(cs@, pieces@),
            ranges_view(cs@, pieces@) == p,
            ranges_ok(cs@, out@),
            ranges_view(cs@, out@) == p.drop_last().take(t as int).map_values(|l: Seq<char>| strip_cr(l)),
        decreases pieces@.len() - t,
    {
        let (a, b) = pieces[t];
        assert(p[t as int] == cs@.subrange(a as int, b as int));
        let end = if b > a && cs[b - 1] == '\r' {
            b - 1
        } else {
            b
        };
        let ghost old_out = out@;
        out.push((a, end));
        assert(cs@.subrange(a as int, end as int) =~= strip_cr(p[t as int]));
        assert(ranges_view(cs@, out@) =~= ranges_view(cs@, old_out).push(strip_cr(p[t as int])));
        assert(p.drop_last().take(t + 1) =~= p.drop_last().take(t as int).push(p[t as int]));
        assert(ranges_view(cs@, out@) =~= p.drop_last().take(t + 1).map_values(|l: Seq<char>| strip_cr(l)));
        t += 1;
    }
    assert(p.drop_last().take(t as int) =~= p.drop_last());
    let (a, b) = pieces[t];
    assert(p.last() == cs@.subrange(a as int, b as int));
    if a < b {
        out.push((a, b));
        assert(ranges_view(cs@, out@) =~= lines(cs@));
    } else {
        assert(ranges_view(cs@, out@) =~= lines(cs@));
    }
    out
}

/// The pieces of `s` between occurrences of `sep`.
pub fn split_str(s: &str, sep: char) -> (r: Vec<String>)
    ensures
        views(r@) == split_on(s@, sep),
{
    let cs = chars_of(s);
    let rs = split_ranges(&cs, sep);
    strings_of(&cs, &rs)
}

/// The strings that the ranges `rs` delimit in `cs`.
pub fn strings_of(cs: &Vec<char>, rs: &Vec<(usize, usize)>) -> (r: Vec<String>)
    requires
        ranges_ok(cs@, rs@),
    ensures
        views(r@) == ranges_view(cs@, rs@),
{
    let mut out: Vec<String> = Vec::new();
    let mut t: usize = 0;
    while t < rs.len()
        invariant
            t <= rs@.len(),
            ranges_ok(cs@, rs@),
            views(out@) == ranges_view(cs@, rs@).take(t as int),
        decreases rs@.len() - t,
    {
        let (a, b) = rs[t];
        assert(rs@[t as int].0 <= rs@[t as int].1 <= cs@.len());
        let piece = string_of(cs, a, b);
        let ghost old_out = out@;
        out.push(piece);
        assert(views(out@) =~= views(old_out).push(cs@.subrange(a as int, b as int)));
        assert(ranges_view(cs@, rs@)[t as int] == cs@.subrange(a as int, b as int));
        assert(ranges_view(cs@, rs@).take(t + 1) =~= ranges_view(cs@, rs@).take(t as int).push(
            cs@.subrange(a as int, b as int),
        ));
        assert(views(out@) =~= ranges_view(cs@, rs@).take(t + 1));
        t += 1;
    }
    assert(ranges_view(cs@, rs@).take(t as int) =~= ranges_view(cs@, rs@));
    out
}

/// Whether `s` reads exactly "true".
pub fn is_true_str(s: &String) -> (r: bool)
    ensures
        r == (s@ == seq!['t', 'r', 'u', 'e']),
{
    let t = String::from_str("true");
    proof {
        reveal_strlit("true");
    }
    assert(t@ =~= seq!['t', 'r', 'u', 'e']);
    *s == t
}

/// The displayed width of a string.
pub fn display_width(s: &str) -> (r: usize)
    ensures
        r == str_width_of(s@),
{
    str_width(s)
}

/// The first line of `msg` (all of it when it has no line), cut to `max_width`.
pub fn truncate_message(msg: &str, max_width: usize) -> (r: String)
    ensures
        lines(msg@).len() > 0 ==> is_truncation(lines(msg@)[0], max_width as int, r@),
        lines(msg@).len() == 0 ==> is_truncation(msg@, max_width as int, r@),
{
    let cs = chars_of(msg);
    let rs = line_ranges(&cs);
    if rs.len() > 0 {
        let (a, b) = rs[0];
        assert(rs@[0].0 <= rs@[0].1 <= cs@.len());
        let first = string_of(&cs, a, b);
        truncate_str(first.as_str(), max_width)
    } else {
        truncate_str(msg, max_width)
    }
}

} // verus!
