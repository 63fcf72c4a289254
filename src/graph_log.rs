//! The colored graph log of jj: stripping color codes and reading commit lines.
//!
//! A commit line starts with graph symbols (no lowercase letter), then an
//! eight-letter change id, white space, the author, white space, a timestamp,
//! optional `[bookmarks]`, and the description.

use vstd::prelude::*;

use crate::graph::ints;
use crate::text::{chars_of, is_space, is_space_char, line_ranges, lines, push_char, string_of};

verus! {

/// The escape character that starts a color code.
pub open spec fn esc() -> char {
    '\u{1b}'
}

/// A character allowed among the parameters of a color code.
pub open spec fn is_param_char(c: char) -> bool {
    ('0' <= c <= '9') || c == ';'
}

/// End of the run of parameter characters from `i`.
pub open spec fn param_end(s: Seq<char>, i: int) -> int
    decreases s.len() - i,
{
    if 0 <= i < s.len() && is_param_char(s[i]) {
        param_end(s, i + 1)
    } else {
        i
    }
}

/// A color code `ESC [ params m` starts at `i`.
pub open spec fn is_color_code_at(s: Seq<char>, i: int) -> bool {
    &&& 0 <= i
    &&& i + 1 < s.len()
    &&& s[i] == esc()
    &&& s[i + 1] == '['
    &&& i + 2 <= param_end(s, i + 2) < s.len()
    &&& s[param_end(s, i + 2)] == 'm'
}

/// The characters of `s` from `i` on, color codes removed.
pub open spec fn strip_from(s: Seq<char>, i: int) -> Seq<char>
    decreases s.len() - i,
{
    if i < 0 || i >= s.len() {
        Seq::empty()
    } else if is_color_code_at(s, i) {
        strip_from(s, param_end(s, i + 2) + 1)
    } else {
        seq![s[i]] + strip_from(s, i + 1)
    }
}

/// `s` with its color codes removed.
pub open spec fn stripped(s: Seq<char>) -> Seq<char> {
    strip_from(s, 0)
}

/// End of the run of parameter characters of `cs` from `i`.
fn param_run_end(cs: &Vec<char>, i: usize) -> (r: usize)
    requires
        i <= cs@.len(),
    ensures
        r as int == param_end(cs@, i as int),
        i <= r <= cs@.len(),
{
    let mut j: usize = i;
    while j < cs.len() && (('0' <= cs[j] && cs[j] <= '9') || cs[j] == ';')
        invariant
            i <= j <= cs@.len(),
            param_end(cs@, j as int) == param_end(cs@, i as int),
        decreases cs@.len() - j,
    {
        j += 1;
    }
    j
}

/// Removes color codes (`ESC [ digits-and-semicolons m`) from a string.
pub fn strip_ansi(s: &str) -> (r: String)
    ensures
        r@ == stripped(s@),
{
    let cs = chars_of(s);
    let mut out = String::new();
    let mut i: usize = 0;
    while i < cs.len()
        invariant
            i <= cs@.len(),
            out@ + strip_from(cs@, i as int) == stripped(cs@),
        decreases cs@.len() - i,
    {
        if i + 1 < cs.len() && cs[i] == '\u{1b}' && cs[i + 1] == '[' {
            let e = param_run_end(&cs, i + 2);
            assert(i + 2 <= e);
            if e < cs.len() && cs[e] == 'm' {
                i = e + 1;
                continue;
            }
        }
        let ghost before = out@;
        push_char(&mut out, cs[i]);
        assert(out@ + strip_from(cs@, i + 1) =~= before + strip_from(cs@, i as int));
        i += 1;
    }
    assert(out@ =~= stripped(cs@));
    out
}

/// A lowercase ASCII letter.
pub open spec fn is_lower(c: char) -> bool {
    'a' <= c <= 'z'
}

/// First position from `i` on whose character satisfies `p`, or the length.
pub open spec fn first_from(s: Seq<char>, i: int, p: spec_fn(char) -> bool) -> int
    decreases s.len() - i,
{
    if 0 <= i < s.len() && !p(s[i]) {
        first_from(s, i + 1, p)
    } else {
        i
    }
}

/// The test for a lowercase letter.
pub open spec fn lower_pred() -> spec_fn(char) -> bool {
    |c: char| is_lower(c)
}

/// The test for white space.
pub open spec fn space_pred() -> spec_fn(char) -> bool {
    |c: char| is_space(c)
}

/// The test for a character other than white space.
pub open spec fn non_space_pred() -> spec_fn(char) -> bool {
    |c: char| !is_space(c)
}

/// The test for a closing bracket.
pub open spec fn close_pred() -> spec_fn(char) -> bool {
    |c: char| c == ']'
}

/// Where the change id of a line starts: at its first lowercase letter.
pub open spec fn id_start(s: Seq<char>) -> int {
    first_from(s, 0, lower_pred())
}

/// The line has an eight-letter change id followed by white space.
pub open spec fn has_change_id(s: Seq<char>) -> bool {
    let p = id_start(s);
    &&& p + 8 < s.len()
    &&& forall|k: int| 0 <= k < 8 ==> is_lower(#[trigger] s[p + k])
    &&& is_space(s[p + 8])
}

/// The change id of a line, if it has one.
pub open spec fn change_id_of(s: Seq<char>) -> Option<Seq<char>> {
    if has_change_id(s) {
        Some(s.subrange(id_start(s), id_start(s) + 8))
    } else {
        None
    }
}

/// Start of the author field.
pub open spec fn author_start(s: Seq<char>) -> int {
    first_from(s, id_start(s) + 8, non_space_pred())
}

/// End of the author field.
pub open spec fn author_end(s: Seq<char>) -> int {
    first_from(s, author_start(s), space_pred())
}

/// Start of the timestamp field.
pub open spec fn time_start(s: Seq<char>) -> int {
    first_from(s, author_end(s), non_space_pred())
}

/// End of the timestamp field.
pub open spec fn time_end(s: Seq<char>) -> int {
    first_from(s, time_start(s), space_pred())
}

/// Start of what follows the timestamp.
pub open spec fn rest_start(s: Seq<char>) -> int {
    first_from(s, time_end(s), non_space_pred())
}

/// Where the bookmarks' closing bracket is, when what follows the timestamp starts with `[`.
pub open spec fn close_pos(s: Seq<char>) -> int {
    first_from(s, rest_start(s) + 1, close_pred())
}

/// What follows the timestamp starts with a bracketed bookmark list.
pub open spec fn has_bookmarks(s: Seq<char>) -> bool {
    &&& rest_start(s) < s.len()
    &&& s[rest_start(s)] == '['
    &&& close_pos(s) < s.len()
}

/// Start of the description.
pub open spec fn desc_start(s: Seq<char>) -> int {
    if has_bookmarks(s) {
        first_from(s, close_pos(s) + 1, non_space_pred())
    } else {
        rest_start(s)
    }
}

/// The line is a commit line: change id, author, timestamp, optional
/// bookmarks, and a description without a line break.
pub open spec fn is_commit_text(s: Seq<char>) -> bool {
    &&& has_change_id(s)
    &&& author_end(s) > author_start(s)
    &&& time_start(s) > author_end(s)
    &&& time_end(s) > time_start(s)
    &&& forall|j: int| desc_start(s) <= j < s.len() ==> s[j] != '\n'
}

/// Change id and description of a commit line; both `None` for another line.
pub open spec fn commit_fields(s: Seq<char>) -> (Option<Seq<char>>, Option<Seq<char>>) {
    if is_commit_text(s) {
        (Some(s.subrange(id_start(s), id_start(s) + 8)), Some(s.skip(desc_start(s))))
    } else {
        (None, None)
    }
}

proof fn lemma_first_from_bounds(s: Seq<char>, i: int, p: spec_fn(char) -> bool)
    requires
        0 <= i <= s.len(),
    ensures
        i <= first_from(s, i, p) <= s.len(),
        first_from(s, i, p) < s.len() ==> p(s[first_from(s, i, p)]),
        forall|j: int| i <= j < first_from(s, i, p) ==> !p(#[trigger] s[j]),
    decreases s.len() - i,
{
    if i < s.len() && !p(s[i]) {
        lemma_first_from_bounds(s, i + 1, p);
    }
}

/// First position from `i` on holding a lowercase letter, or the length.
fn find_lower(cs: &Vec<char>, i: usize) -> (r: usize)
    requires
        i <= cs@.len(),
    ensures
        r as int == first_from(cs@, i as int, lower_pred()),
{
    let mut j: usize = i;
    while j < cs.len() && !('a' <= cs[j] && cs[j] <= 'z')
        invariant
            i <= j <= cs@.len(),
            first_from(cs@, j as int, lower_pred()) == first_from(cs@, i as int, lower_pred()),
        decreases cs@.len() - j,
    {
        j += 1;
    }
    j
}

/// First position from `i` on where white space starts (`want_space`) or ends.
fn find_space_edge(cs: &Vec<char>, i: usize, want_space: bool) -> (r: usize)
    requires
        i <= cs@.len(),
    ensures
        want_space ==> r as int == first_from(cs@, i as int, space_pred()),
        !want_space ==> r as int == first_from(cs@, i as int, non_space_pred()),
{
    let mut j: usize = i;
    while j < cs.len() && is_space_char(cs[j]) != want_space
        invariant
            i <= j <= cs@.len(),
            want_space ==> first_from(cs@, j as int, space_pred()) == first_from(cs@, i as int, space_pred()),
            !want_space ==> first_from(cs@, j as int, non_space_pred()) == first_from(
                cs@,
                i as int,
                non_space_pred(),
            ),
        decreases cs@.len() - j,
    {
        j += 1;
    }
    j
}

/// First position from `i` on holding `]`, or the length.
fn find_close(cs: &Vec<char>, i: usize) -> (r: usize)
    requires
        i <= cs@.len(),
    ensures
        r as int == first_from(cs@, i as int, close_pred()),
{
    let mut j: usize = i;
    while j < cs.len() && cs[j] != ']'
        invariant
            i <= j <= cs@.len(),
            first_from(cs@, j as int, close_pred()) == first_from(cs@, i as int, close_pred()),
        decreases cs@.len() - j,
    {
        j += 1;
    }
    j
}

/// Position of the change id in `cs`, if the line has one.
fn change_id_at(cs: &Vec<char>) -> (r: Option<usize>)
    ensures
        r is Some <==> has_change_id(cs@),
        r matches Some(p) ==> p as int == id_start(cs@),
{
    let p = find_lower(cs, 0);
    proof {
        lemma_first_from_bounds(cs@, 0, lower_pred());
    }
    let n = cs.len();
    if p >= n || n - p <= 8 {
        return None;
    }
    let mut k: usize = 0;
    while k < 8
        invariant
            k <= 8,
            n == cs@.len(),
            p + 8 < n,
            p as int == id_start(cs@),
            forall|m: int| 0 <= m < k ==> is_lower(#[trigger] cs@[p + m]),
        decreases 8 - k,
    {
        if !('a' <= cs[p + k] && cs[p + k] <= 'z') {
            assert(!is_lower(cs@[p + k]));
            return None;
        }
        k += 1;
    }
    if !is_space_char(cs[p + 8]) {
        return None;
    }
    Some(p)
}

/// The change id of a plain line: the eight lowercase letters that start at
/// its first lowercase letter, when white space follows them.
pub fn extract_change_id(plain: &str) -> (r: Option<String>)
    ensures
        r matches Some(id) ==> change_id_of(plain@) == Some(id@),
        r is None ==> change_id_of(plain@) is None,
{
    let cs = chars_of(plain);
    match change_id_at(&cs) {
        Some(p) => Some(string_of(&cs, p, p + 8)),
        None => None,
    }
}

/// The change id and description of a plain commit line; both `None` for any
/// other line.
pub fn extract_commit_fields(plain: &str) -> (r: (Option<String>, Option<String>))
    ensures
        r.0 is Some <==> commit_fields(plain@).0 is Some,
        r.1 is Some <==> commit_fields(plain@).1 is Some,
        r.0 matches Some(id) ==> commit_fields(plain@).0 == Some(id@),
        r.1 matches Some(d) ==> commit_fields(plain@).1 == Some(d@),
{
    let cs = chars_of(plain);
    let ghost s = cs@;
    let p = match change_id_at(&cs) {
        Some(p) => p,
        None => {
            return (None, None);
        },
    };
    let a0 = find_space_edge(&cs, p + 8, false);
    proof {
        lemma_first_from_bounds(s, p + 8, non_space_pred());
    }
    let a1 = find_space_edge(&cs, a0, true);
    proof {
        lemma_first_from_bounds(s, a0 as int, space_pred());
    }
    let t0 = find_space_edge(&cs, a1, false);
    proof {
        lemma_first_from_bounds(s, a1 as int, non_space_pred());
    }
    let t1 = find_space_edge(&cs, t0, true);
    proof {
        lemma_first_from_bounds(s, t0 as int, space_pred());
    }
    if !(a1 > a0 && t0 > a1 && t1 > t0) {
        assert(!is_commit_text(s));
        return (None, None);
    }
    let r = find_space_edge(&cs, t1, false);
    proof {
        lemma_first_from_bounds(s, t1 as int, non_space_pred());
    }
    let mut d = r;
    if r < cs.len() && cs[r] == '[' {
        let q = find_close(&cs, r + 1);
        proof {
            lemma_first_from_bounds(s, r + 1, close_pred());
        }
        if q < cs.len() {
            d = find_space_edge(&cs, q + 1, false);
            proof {
                lemma_first_from_bounds(s, q + 1, non_space_pred());
            }
        }
    }
    assert(d as int == desc_start(s));
    let mut j: usize = d;
    while j < cs.len()
        invariant
            d <= j <= cs@.len(),
            s == cs@,
            cs@ == plain@,
            d as int == desc_start(s),
            forall|m: int| d <= m < j ==> cs@[m] != '\n',
        decreases cs@.len() - j,
    {
        if cs[j] == '\n' {
            assert(s[j as int] == '\n');
            assert(!is_commit_text(s));
            return (None, None);
        }
        j += 1;
    }
    let id = string_of(&cs, p, p + 8);
    let desc = string_of(&cs, d, cs.len());
    assert(desc@ =~= s.skip(d as int));
    (Some(id), Some(desc))
}

/// A single line from the graph log output.
#[derive(Debug, Clone)]
pub struct GraphLine {
    /// Raw line text with color codes.
    pub raw: String,
    /// Plain text without color codes.
    pub plain: String,
    /// Change ID of the commit on this line, if any.
    pub change_id: Option<String>,
    /// Description of the commit on this line, if any.
    pub description: Option<String>,
    /// Line index in the full output.
    pub line_index: usize,
}

/// The view of an optional string.
pub open spec fn opt_view(o: Option<String>) -> Option<Seq<char>> {
    match o {
        Some(s) => Some(s@),
        None => None,
    }
}

/// `g` is the graph line read from `raw` at position `index`.
pub open spec fn is_line_of(raw: Seq<char>, index: int, g: GraphLine) -> bool {
    &&& g.raw@ == raw
    &&& g.plain@ == stripped(raw)
    &&& opt_view(g.change_id) == commit_fields(stripped(raw)).0
    &&& opt_view(g.description) == commit_fields(stripped(raw)).1
    &&& g.line_index == index
}

impl GraphLine {
    /// Reads a graph line from its raw text.
    pub fn new(raw: String, line_index: usize) -> (r: Self)
        ensures
            is_line_of(raw@, line_index as int, r),
    {
        let plain = strip_ansi(raw.as_str());
        let (change_id, description) = extract_commit_fields(plain.as_str());
        GraphLine { raw, plain, change_id, description, line_index }
    }

    /// Whether this line holds a commit (has a change id).
    pub fn is_commit_line(&self) -> (r: bool)
        ensures
            r == self.change_id is Some,
    {
        self.change_id.is_some()
    }
}

/// Complete graph log with all lines and the positions of commit lines.
#[derive(Debug, Clone)]
pub struct GraphLog {
    /// All lines from the graph output.
    pub lines: Vec<GraphLine>,
    /// Indices of lines that contain commits (are selectable).
    pub commit_line_indices: Vec<usize>,
}

/// The positions of the commit lines among `ls`.
pub open spec fn commit_positions(ls: Seq<GraphLine>) -> Seq<int> {
    Seq::new(ls.len(), |k: int| k).filter(|k: int| ls[k].change_id is Some)
}

impl Default for GraphLog {
    fn default() -> (r: Self)
        ensures
            r.lines@.len() == 0,
            r.commit_line_indices@.len() == 0,
    {
        GraphLog { lines: Vec::new(), commit_line_indices: Vec::new() }
    }
}

impl GraphLog {
    /// Reads a graph log from the raw output: one graph line per line, and
    /// the positions of those that hold a commit.
    pub fn from_output(output: &str) -> (r: Self)
        ensures
            r.lines@.len() == lines(output@).len(),
            forall|k: int| 0 <= k < r.lines@.len() ==> is_line_of(lines(output@)[k], k, #[trigger] r.lines@[k]),
            ints(r.commit_line_indices@) == commit_positions(r.lines@),
    {
        let cs = chars_of(output);
        let rs = line_ranges(&cs);
        let ghost ls = lines(output@);
        let mut glines: Vec<GraphLine> = Vec::new();
        let mut idx: Vec<usize> = Vec::new();
        let mut t: usize = 0;
        while t < rs.len()
            invariant
                t <= rs@.len(),
                cs@ == output@,
                crate::text::ranges_ok(cs@, rs@),
                crate::text::ranges_view(cs@, rs@) == ls,
                glines@.len() == t,
                forall|k: int| 0 <= k < t ==> is_line_of(ls[k], k, #[trigger] glines@[k]),
                ints(idx@) == Seq::new(t as nat, |k: int| k).filter(|k: int| glines@[k].change_id is Some),
            decreases rs@.len() - t,
        {
            let (a, b) = rs[t];
            assert(rs@[t as int].0 <= rs@[t as int].1 <= cs@.len());
            let raw = string_of(&cs, a, b);
            let g = GraphLine::new(raw, t);
            let is_commit = g.is_commit_line();
            let ghost old_g = glines@;
            glines.push(g);
            if is_commit {
                idx.push(t);
            }
            proof {
                reveal(Seq::filter);
                let f = |k: int| glines@[k].change_id is Some;
                let f_old = |k: int| old_g[k].change_id is Some;
                assert(Seq::new((t + 1) as nat, |k: int| k).drop_last() =~= Seq::new(t as nat, |k: int| k));
                assert(Seq::new(t as nat, |k: int| k).filter(f) =~= Seq::new(t as nat, |k: int| k).filter(f_old)) by {
                    lemma_filter_same_on_range(old_g, glines@, t as int);
                }
                assert(ints(idx@) =~= Seq::new((t + 1) as nat, |k: int| k).filter(f));
            }
            t += 1;
        }
        GraphLog { lines: glines, commit_line_indices: idx }
    }

    /// Number of selectable commits.
    pub fn commit_count(&self) -> (r: usize)
        ensures
            r == self.commit_line_indices@.len(),
    {
        self.commit_line_indices.len()
    }

    /// The line index of the commit at a selection index.
    pub fn line_index_for_selection(&self, selection: usize) -> (r: Option<usize>)
        ensures
            selection < self.commit_line_indices@.len() ==> r == Some(self.commit_line_indices@[selection as int]),
            selection >= self.commit_line_indices@.len() ==> r is None,
    {
        if selection < self.commit_line_indices.len() {
            Some(self.commit_line_indices[selection])
        } else {
            None
        }
    }

    /// The change id of the commit at a selection index.
    pub fn change_id_for_selection(&self, selection: usize) -> (r: Option<&str>)
        ensures
            ({
                let ok = selection < self.commit_line_indices@.len()
                    && self.commit_line_indices@[selection as int] < self.lines@.len();
                &&& !ok ==> r is None
                &&& ok ==> match (r, self.lines@[self.commit_line_indices@[selection as int] as int].change_id) {
                    (Some(a), Some(b)) => a@ == b@,
                    (None, None) => true,
                    _ => false,
                }
            }),
    {
        match self.line_index_for_selection(selection) {
            Some(i) => {
                if i < self.lines.len() {
                    match &self.lines[i].change_id {
                        Some(s) => Some(s.as_str()),
                        None => None,
                    }
                } else {
                    None
                }
            },
            None => None,
        }
    }

    /// Whether there is no commit line.
    pub fn is_empty(&self) -> (r: bool)
        ensures
            r == (self.commit_line_indices@.len() == 0),
    {
        self.commit_line_indices.len() == 0
    }

    /// Appends another graph log, shifting its line indices past this log's lines.
    pub fn extend(&mut self, other: GraphLog)
        requires
            forall|k: int|
                0 <= k < other.lines@.len() ==> (#[trigger] other.lines@[k]).line_index + old(self).lines@.len()
                    <= usize::MAX,
            forall|k: int|
                0 <= k < other.commit_line_indices@.len() ==> #[trigger] other.commit_line_indices@[k]
                    + old(self).lines@.len() <= usize::MAX,
        ensures
            final(self).lines@.len() == old(self).lines@.len() + other.lines@.len(),
            forall|k: int| 0 <= k < old(self).lines@.len() ==> #[trigger] final(self).lines@[k] == old(self).lines@[k],
            forall|k: int|
                0 <= k < other.lines@.len() ==> {
                    let g = #[trigger] final(self).lines@[old(self).lines@.len() + k];
                    let h = other.lines@[k];
                    &&& g.raw == h.raw
                    &&& g.plain == h.plain
                    &&& g.change_id == h.change_id
                    &&& g.description == h.description
                    &&& g.line_index == h.line_index + old(self).lines@.len()
                },
            ints(final(self).commit_line_indices@) == ints(old(self).commit_line_indices@) + ints(
                other.commit_line_indices@,
            ).map_values(|i: int| i + old(self).lines@.len()),
    {
        let offset = self.lines.len();
        let ghost old_lines = self.lines@;
        let ghost old_idx = ints(self.commit_line_indices@);
        let GraphLog { lines: mut other_lines, commit_line_indices: other_idx } = other;
        let ghost theirs = other_lines@;
        // Move the other lines over, first to last.
        let mut moved: Vec<GraphLine> = Vec::new();
        while other_lines.len() > 0
            invariant
                other_lines@.len() + moved@.len() == theirs.len(),
                other_lines@ == theirs.take(other_lines@.len() as int),
                forall|k: int| 0 <= k < moved@.len() ==> #[trigger] moved@[k] == theirs[theirs.len() - 1 - k],
            decreases other_lines@.len(),
        {
            let g = other_lines.pop().unwrap();
            moved.push(g);
            assert(other_lines@ =~= theirs.take(other_lines@.len() as int));
        }
        while moved.len() > 0
            invariant
                self.lines@.len() + moved@.len() == old_lines.len() + theirs.len(),
                self.lines@.len() >= old_lines.len(),
                offset == old_lines.len(),
                self.commit_line_indices@ == old(self).commit_line_indices@,
                forall|k: int| 0 <= k < old_lines.len() ==> #[trigger] self.lines@[k] == old_lines[k],
                forall|k: int| 0 <= k < moved@.len() ==> #[trigger] moved@[k] == theirs[theirs.len() - 1 - k],
                forall|k: int| 0 <= k < theirs.len() ==> (#[trigger] theirs[k]).line_index + offset <= usize::MAX,
                forall|k: int|
                    0 <= k < self.lines@.len() - old_lines.len() ==> {
                        let g = #[trigger] self.lines@[old_lines.len() + k];
                        let h = theirs[k];
                        &&& g.raw == h.raw
                        &&& g.plain == h.plain
                        &&& g.change_id == h.change_id
                        &&& g.description == h.description
                        &&& g.line_index == h.line_index + offset
                    },
            decreases moved@.len(),
        {
            let mut g = moved.pop().unwrap();
            g.line_index = g.line_index + offset;
            self.lines.push(g);
        }
        let mut t: usize = 0;
        while t < other_idx.len()
            invariant
                t <= other_idx@.len(),
                offset == old_lines.len(),
                forall|k: int| 0 <= k < other_idx@.len() ==> #[trigger] other_idx@[k] + offset <= usize::MAX,
                ints(self.commit_line_indices@) == old_idx + ints(other_idx@).take(t as int).map_values(
                    |i: int| i + offset,
                ),
                self.lines@.len() == old_lines.len() + theirs.len(),
                forall|k: int| 0 <= k < old_lines.len() ==> #[trigger] self.lines@[k] == old_lines[k],
                forall|k: int|
                    0 <= k < theirs.len() ==> {
                        let g = #[trigger] self.lines@[old_lines.len() + k];
                        let h = theirs[k];
                        &&& g.raw == h.raw
                        &&& g.plain == h.plain
                        &&& g.change_id == h.change_id
                        &&& g.description == h.description
                        &&& g.line_index == h.line_index + offset
                    },
            decreases other_idx@.len() - t,
        {
            let ghost before = ints(self.commit_line_indices@);
            self.commit_line_indices.push(other_idx[t] + offset);
            assert(ints(self.commit_line_indices@) =~= before.push(other_idx@[t as int] + offset));
            assert(ints(other_idx@).take(t + 1) =~= ints(other_idx@).take(t as int).push(other_idx@[t as int] as int));
            assert(ints(other_idx@).take(t + 1).map_values(|i: int| i + offset) =~= ints(other_idx@).take(
                t as int,
            ).map_values(|i: int| i + offset).push(other_idx@[t as int] + offset));
            assert(ints(self.commit_line_indices@) =~= old_idx + ints(other_idx@).take(t + 1).map_values(
                |i: int| i + offset,
            ));
            t += 1;
        }
        assert(ints(other_idx@).take(t as int) =~= ints(other_idx@));
    }
}

proof fn lemma_filter_same_on_range(a: Seq<GraphLine>, b: Seq<GraphLine>, t: int)
    requires
        0 <= t <= a.len(),
        a.len() <= b.len(),
        forall|k: int| 0 <= k < a.len() ==> b[k] == a[k],
    ensures
        Seq::new(t as nat, |k: int| k).filter(|k: int| b[k].change_id is Some) == Seq::new(
            t as nat,
            |k: int| k,
        ).filter(|k: int| a[k].change_id is Some),
    decreases t,
{
    reveal(Seq::filter);
    if t > 0 {
        assert(Seq::new(t as nat, |k: int| k).drop_last() =~= Seq::new((t - 1) as nat, |k: int| k));
        lemma_filter_same_on_range(a, b, t - 1);
    }
}

} // verus!
