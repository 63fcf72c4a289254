//! Parsing of the output of `jj show`-style queries: commit metadata and the
//! summary of changed files.

use vstd::prelude::*;

use crate::error::XorcistError;
use crate::log::{bookmarks_of, parse_bookmarks_field};
use crate::text::{
    chars_of, is_space, is_space_char, line_ranges, lines, push_char, split_on, split_ranges,
    string_of, trim_end, trim_end_char, trimmed_end_len, views,
};

verus! {

/// Output of a show query.
#[derive(Debug)]
pub struct ShowOutput {
    /// Change ID (full).
    pub change_id: String,
    /// Shortest unique prefix of change ID.
    pub change_id_prefix: String,
    /// Rest of change ID after the unique prefix.
    pub change_id_rest: String,
    /// Commit ID (full).
    pub commit_id: String,
    /// Shortest unique prefix of commit ID.
    pub commit_id_prefix: String,
    /// Rest of commit ID after the unique prefix.
    pub commit_id_rest: String,
    /// Author information.
    pub author: String,
    /// Committer timestamp.
    pub timestamp: String,
    /// Full description.
    pub description: String,
    /// Bookmarks.
    pub bookmarks: Vec<String>,
    /// Changed files with their status.
    pub diff_summary: Vec<DiffEntry>,
}

/// A single file change entry.
#[derive(Debug, Clone)]
pub struct DiffEntry {
    /// Kind of change.
    pub status: DiffStatus,
    /// File path.
    pub path: String,
}

/// Status of a file change.
#[derive(Debug, Clone, Copy, PartialEq, Eq, Structural)]
pub enum DiffStatus {
    Added,
    Modified,
    Deleted,
    Renamed,
    Copied,
}

/// Commit metadata of a show query.
#[derive(Debug)]
pub struct ShowMeta {
    pub change_id: String,
    pub change_id_prefix: String,
    pub change_id_rest: String,
    pub commit_id: String,
    pub commit_id_prefix: String,
    pub commit_id_rest: String,
    pub author: String,
    pub timestamp: String,
    pub description: String,
    pub bookmarks: Vec<String>,
}

/// The decimal digits of `n`.
pub open spec fn decimal(n: nat) -> Seq<char>
    decreases n,
{
    if n < 10 {
        seq![digit_char(n)]
    } else {
        decimal(n / 10).push(digit_char(n % 10))
    }
}

/// The character of a decimal digit.
pub open spec fn digit_char(d: nat) -> char {
    if d == 0 {
        '0'
    } else if d == 1 {
        '1'
    } else if d == 2 {
        '2'
    } else if d == 3 {
        '3'
    } else if d == 4 {
        '4'
    } else if d == 5 {
        '5'
    } else if d == 6 {
        '6'
    } else if d == 7 {
        '7'
    } else if d == 8 {
        '8'
    } else {
        '9'
    }
}

/// `n` written in decimal.
pub fn decimal_string(n: usize) -> (r: String)
    ensures
        r@ == decimal(n as nat),
    decreases n,
{
    let d = n % 10;
    let c = if d == 0 {
        '0'
    } else if d == 1 {
        '1'
    } else if d == 2 {
        '2'
    } else if d == 3 {
        '3'
    } else if d == 4 {
        '4'
    } else if d == 5 {
        '5'
    } else if d == 6 {
        '6'
    } else if d == 7 {
        '7'
    } else if d == 8 {
        '8'
    } else {
        '9'
    };
    let mut r = if n < 10 {
        String::new()
    } else {
        decimal_string(n / 10)
    };
    push_char(&mut r, c);
    proof {
        if n < 10 {
            assert(r@ =~= seq![digit_char(n as nat)]);
        }
    }
    r
}

/// The fields of a show output: trailing newlines dropped, then split at NUL.
pub open spec fn show_fields(output: Seq<char>) -> Seq<Seq<char>> {
    split_on(trim_end_char(output, '\n'), '\0')
}

/// The message of the error for a show output with `n` fields.
pub open spec fn field_count_message(n: nat) -> Seq<char> {
    "unexpected show output format: expected 8 fields, got "@ + decimal(n)
}

/// `m` is the metadata that the show output `output` describes.
pub open spec fn is_meta_of(output: Seq<char>, m: ShowMeta) -> bool {
    let f = show_fields(output);
    &&& f.len() >= 8
    &&& m.change_id_prefix@ == f[0]
    &&& m.change_id_rest@ == f[1]
    &&& m.change_id@ == f[0] + f[1]
    &&& m.commit_id_prefix@ == f[2]
    &&& m.commit_id_rest@ == f[3]
    &&& m.commit_id@ == f[2] + f[3]
    &&& m.author@ == f[4]
    &&& m.timestamp@ == f[5]
    &&& m.description@ == trim_end_char(f[6], '\n')
    &&& views(m.bookmarks@) == bookmarks_of(f[7])
}

/// Number of leading characters of `cs[..to]` left once trailing `c` are dropped.
fn trimmed_char_len(cs: &Vec<char>, to: usize, c: char) -> (k: usize)
    requires
        to <= cs@.len(),
    ensures
        k <= to,
        cs@.subrange(0, k as int) == trim_end_char(cs@.subrange(0, to as int), c),
{
    let mut k: usize = to;
    while k > 0 && cs[k - 1] == c
        invariant
            k <= to <= cs@.len(),
            trim_end_char(cs@.subrange(0, k as int), c) == trim_end_char(cs@.subrange(0, to as int), c),
        decreases k,
    {
        assert(cs@.subrange(0, k as int).drop_last() =~= cs@.subrange(0, k - 1));
        k -= 1;
    }
    k
}

/// `s` with trailing occurrences of `c` dropped.
fn trim_end_matches_char(s: &String, c: char) -> (r: String)
    ensures
        r@ == trim_end_char(s@, c),
{
    let cs = chars_of(s.as_str());
    let k = trimmed_char_len(&cs, cs.len(), c);
    assert(cs@.subrange(0, cs@.len() as int) =~= cs@);
    string_of(&cs, 0, k)
}

/// Parses the metadata of a show output: eight NUL-separated fields, the
/// description without trailing newlines.
pub fn parse_show_meta(output: &str) -> (r: Result<ShowMeta, XorcistError>)
    ensures
        r is Ok <==> show_fields(output@).len() >= 8,
        r matches Ok(m) ==> is_meta_of(output@, m),
        r matches Err(e) ==> e matches XorcistError::JjError(msg) && msg@ == field_count_message(
            show_fields(output@).len(),
        ),
{
    let cs = chars_of(output);
    let k = trimmed_char_len(&cs, cs.len(), '\n');
    assert(cs@.subrange(0, cs@.len() as int) =~= cs@);
    let trimmed = string_of(&cs, 0, k);
    let parts = crate::text::split_str(trimmed.as_str(), '\0');
    if parts.len() < 8 {
        let mut msg = String::from_str("unexpected show output format: expected 8 fields, got ");
        let count = decimal_string(parts.len());
        msg.append(count.as_str());
        return Err(XorcistError::JjError(msg));
    }
    let ghost f = views(parts@);
    assert(f[0] == parts@[0]@);
    let mut change_id = parts[0].clone();
    change_id.append(parts[1].as_str());
    let mut commit_id = parts[2].clone();
    commit_id.append(parts[3].as_str());
    Ok(
        ShowMeta {
            change_id,
            change_id_prefix: parts[0].clone(),
            change_id_rest: parts[1].clone(),
            commit_id,
            commit_id_prefix: parts[2].clone(),
            commit_id_rest: parts[3].clone(),
            author: parts[4].clone(),
            timestamp: parts[5].clone(),
            description: trim_end_matches_char(&parts[6], '\n'),
            bookmarks: parse_bookmarks_field(parts[7].as_str()),
        },
    )
}

/// `s` without its leading white space.
pub open spec fn trim_start(s: Seq<char>) -> Seq<char>
    decreases s.len(),
{
    if s.len() > 0 && is_space(s[0]) {
        trim_start(s.drop_first())
    } else {
        s
    }
}

/// `s` without leading and trailing white space.
pub open spec fn trim(s: Seq<char>) -> Seq<char> {
    trim_start(trim_end(s))
}

/// The status named by a one-letter status field.
pub open spec fn status_of(field: Seq<char>) -> Option<DiffStatus> {
    if field == seq!['A'] {
        Some(DiffStatus::Added)
    } else if field == seq!['M'] {
        Some(DiffStatus::Modified)
    } else if field == seq!['D'] {
        Some(DiffStatus::Deleted)
    } else if field == seq!['R'] {
        Some(DiffStatus::Renamed)
    } else if field == seq!['C'] {
        Some(DiffStatus::Copied)
    } else {
        None
    }
}

/// The change that a summary line describes: a status letter, a space, and
/// the path (which may hold spaces).
pub open spec fn diff_line_entry(line: Seq<char>) -> Option<(DiffStatus, Seq<char>)> {
    let t = trim(line);
    let pieces = split_on(t, ' ');
    if t.len() == 0 || pieces.len() < 2 {
        None
    } else {
        match status_of(pieces[0]) {
            Some(st) => Some((st, t.skip(pieces[0].len() as int + 1))),
            None => None,
        }
    }
}

/// The changes described by the lines of a summary, in order.
pub open spec fn diff_entries(ls: Seq<Seq<char>>) -> Seq<(DiffStatus, Seq<char>)>
    decreases ls.len(),
{
    if ls.len() == 0 {
        Seq::empty()
    } else {
        let rest = diff_entries(ls.drop_last());
        match diff_line_entry(ls.last()) {
            Some(e) => rest.push(e),
            None => rest,
        }
    }
}

/// The view of a diff entry.
pub open spec fn entry_view(e: DiffEntry) -> (DiffStatus, Seq<char>) {
    (e.status, e.path@)
}

/// The views of a sequence of diff entries.
pub open spec fn entry_views(v: Seq<DiffEntry>) -> Seq<(DiffStatus, Seq<char>)> {
    v.map_values(|e: DiffEntry| entry_view(e))
}

proof fn lemma_split_first_piece(s: Seq<char>, sep: char)
    ensures
        split_on(s, sep).len() >= 1,
        split_on(s, sep).len() >= 2 ==> {
            let f = split_on(s, sep)[0];
            &&& f.len() < s.len()
            &&& s[f.len() as int] == sep
            &&& s.take(f.len() as int) == f
        },
        split_on(s, sep).len() < 2 ==> split_on(s, sep)[0] == s && forall|i: int| 0 <= i < s.len() ==> s[i] != sep,
        split_on(s, sep).len() >= 2 <==> exists|i: int| 0 <= i < s.len() && s[i] == sep,
        forall|i: int| 0 <= i < split_on(s, sep)[0].len() ==> s[i] != sep,
    decreases s.len(),
{
    if s.len() > 0 {
        let t = s.drop_last();
        lemma_split_first_piece(t, sep);
        let p = split_on(t, sep);
        if p.len() >= 2 {
            assert(split_on(s, sep)[0] == p[0]);
            assert(s.take(p[0].len() as int) =~= t.take(p[0].len() as int));
            assert(forall|i: int| 0 <= i < p[0].len() ==> s[i] == t[i]);
        } else if s.last() == sep {
            assert(split_on(s, sep)[0] == p[0]);
            assert(s.take(t.len() as int) =~= t);
            assert(forall|i: int| 0 <= i < p[0].len() ==> s[i] == t[i]);
        } else {
            assert(split_on(s, sep)[0] =~= s);
            assert(forall|i: int| 0 <= i < t.len() ==> s[i] == t[i]);
        }
    } else {
        assert(split_on(s, sep)[0] =~= s);
    }
}

/// Parses one summary line into its change, if it names one.
fn parse_diff_line(cs: &Vec<char>, from: usize, to: usize) -> (r: Option<DiffEntry>)
    requires
        from <= to <= cs@.len(),
    ensures
        r is Some <==> diff_line_entry(cs@.subrange(from as int, to as int)) is Some,
        r matches Some(e) ==> diff_line_entry(cs@.subrange(from as int, to as int)) == Some(
            entry_view(e),
        ),
{
    let ghost line = cs@.subrange(from as int, to as int);
    // Trim trailing, then leading white space.
    let mut end: usize = to;
    while end > from && is_space_char(cs[end - 1])
        invariant
            from <= end <= to <= cs@.len(),
            trim_end(cs@.subrange(from as int, end as int)) == trim_end(line),
        decreases end,
    {
        assert(cs@.subrange(from as int, end as int).drop_last() =~= cs@.subrange(from as int, end - 1));
        end -= 1;
    }
    assert(trim_end(cs@.subrange(from as int, end as int)) == cs@.subrange(from as int, end as int));
    let mut start: usize = from;
    while start < end && is_space_char(cs[start])
        invariant
            from <= start <= end <= to <= cs@.len(),
            trim_start(cs@.subrange(start as int, end as int)) == trim(line),
        decreases end - start,
    {
        assert(cs@.subrange(start as int, end as int).drop_first() =~= cs@.subrange(start + 1, end as int));
        start += 1;
    }
    let ghost t = cs@.subrange(start as int, end as int);
    assert(t == trim(line));
    if start == end {
        return None;
    }
    // Find the first space.
    let mut sp: usize = start;
    while sp < end && cs[sp] != ' '
        invariant
            start <= sp <= end <= cs@.len(),
            forall|i: int| start <= i < sp ==> cs@[i] != ' ',
        decreases end - sp,
    {
        sp += 1;
    }
    proof {
        lemma_split_first_piece(t, ' ');
    }
    if sp == end {
        assert(forall|i: int| 0 <= i < t.len() ==> t[i] == cs@[start + i]);
        return None;
    }
    proof {
        let f = split_on(t, ' ')[0];
        assert(t[sp - start] == ' ');
        assert(f.len() == sp - start) by {
            if f.len() < sp - start {
                assert(t[f.len() as int] == cs@[start + f.len()]);
            }
            if f.len() > sp - start {
                assert(t[sp - start] == cs@[sp as int]);
            }
        }
        assert(f =~= cs@.subrange(start as int, sp as int));
    }
    let letter_len = sp - start;
    if letter_len != 1 {
        assert(split_on(t, ' ')[0].len() != 1);
        return None;
    }
    let c = cs[start];
    assert(split_on(t, ' ')[0] =~= seq![c]);
    let status = if c == 'A' {
        DiffStatus::Added
    } else if c == 'M' {
        DiffStatus::Modified
    } else if c == 'D' {
        DiffStatus::Deleted
    } else if c == 'R' {
        DiffStatus::Renamed
    } else if c == 'C' {
        DiffStatus::Copied
    } else {
        return None;
    };
    let path = string_of(cs, sp + 1, end);
    assert(path@ =~= t.skip(2));
    Some(DiffEntry { status, path })
}

/// Parses a changed-files summary: one `<letter> <path>` per line; blank lines
/// and unknown letters are skipped.
pub fn parse_diff_summary(output: &str) -> (r: Vec<DiffEntry>)
    ensures
        entry_views(r@) == diff_entries(lines(output@)),
{
    let cs = chars_of(output);
    let rs = line_ranges(&cs);
    let ghost ls = lines(output@);
    let mut out: Vec<DiffEntry> = Vec::new();
    let mut t: usize = 0;
    while t < rs.len()
        invariant
            t <= rs@.len(),
            cs@ == output@,
            crate::text::ranges_ok(cs@, rs@),
            crate::text::ranges_view(cs@, rs@) == ls,
            entry_views(out@) == diff_entries(ls.take(t as int)),
        decreases rs@.len() - t,
    {
        let (a, b) = rs[t];
        assert(rs@[t as int].0 <= rs@[t as int].1 <= cs@.len());
        assert(ls[t as int] == cs@.subrange(a as int, b as int));
        let ghost before = out@;
        if let Some(e) = parse_diff_line(&cs, a, b) {
            out.push(e);
        }
        proof {
            assert(ls.take(t + 1).drop_last() =~= ls.take(t as int));
            assert(ls.take(t + 1).last() == ls[t as int]);
            assert(entry_views(out@) =~= diff_entries(ls.take(t + 1)));
        }
        t += 1;
    }
    assert(ls.take(t as int) =~= ls);
    out
}

/// The show output of a revision, from the metadata query's output and the
/// changed-files summary's output.
pub fn show_output_from(meta_output: &str, diff_output: &str) -> (r: Result<ShowOutput, XorcistError>)
    ensures
        r is Ok <==> show_fields(meta_output@).len() >= 8,
        r matches Ok(s) ==> {
            &&& is_meta_of(
                meta_output@,
                ShowMeta {
                    change_id: s.change_id,
                    change_id_prefix: s.change_id_prefix,
                    change_id_rest: s.change_id_rest,
                    commit_id: s.commit_id,
                    commit_id_prefix: s.commit_id_prefix,
                    commit_id_rest: s.commit_id_rest,
                    author: s.author,
                    timestamp: s.timestamp,
                    description: s.description,
                    bookmarks: s.bookmarks,
                },
            )
            &&& entry_views(s.diff_summary@) == diff_entries(lines(diff_output@))
        },
        r matches Err(e) ==> e matches XorcistError::JjError(msg) && msg@ == field_count_message(
            show_fields(meta_output@).len(),
        ),
{
    match parse_show_meta(meta_output) {
        Ok(meta) => {
            let diff_summary = parse_diff_summary(diff_output);
            Ok(
                ShowOutput {
                    change_id: meta.change_id,
                    change_id_prefix: meta.change_id_prefix,
                    change_id_rest: meta.change_id_rest,
                    commit_id: meta.commit_id,
                    commit_id_prefix: meta.commit_id_prefix,
                    commit_id_rest: meta.commit_id_rest,
                    author: meta.author,
                    timestamp: meta.timestamp,
                    description: meta.description,
                    bookmarks: meta.bookmarks,
                    diff_summary,
                },
            )
        },
        Err(e) => Err(e),
    }
}

} // verus!
