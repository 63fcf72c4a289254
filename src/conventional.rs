//! Conventional Commits: parsing a message of the form
//! `type(scope)!: description` and rendering it with an emoji for its type.

use vstd::prelude::*;

use crate::text::chars_of;

verus! {

/// Parsed conventional commit message.
#[derive(Debug, Clone, PartialEq, Eq)]
pub struct ConventionalCommit<'a> {
    /// The commit type (e.g., "feat", "fix").
    pub commit_type: &'a str,
    /// Optional scope (e.g., "api" in "feat(api):").
    pub scope: Option<&'a str>,
    /// Whether this is a breaking change (has `!` suffix).
    pub breaking: bool,
    /// The description after the type prefix.
    pub description: &'a str,
}

/// The parts of a parsed message: type, scope, breaking, description.
pub type CommitParts = (Seq<char>, Option<Seq<char>>, bool, Seq<char>);

/// First position from `i` on where ": " starts, or the length.
pub open spec fn colon_space_from(s: Seq<char>, i: int) -> int
    decreases s.len() - i,
{
    if 0 <= i && i + 1 < s.len() {
        if s[i] == ':' && s[i + 1] == ' ' {
            i
        } else {
            colon_space_from(s, i + 1)
        }
    } else {
        s.len() as int
    }
}

/// First position of `c` in `s`, or the length.
pub open spec fn index_of(s: Seq<char>, c: char) -> int
    decreases s.len(),
{
    if s.len() == 0 {
        0
    } else if s[0] == c {
        0
    } else {
        1 + index_of(s.drop_first(), c)
    }
}

/// All characters are lowercase ASCII letters.
pub open spec fn all_lower(s: Seq<char>) -> bool {
    forall|i: int| 0 <= i < s.len() ==> 'a' <= #[trigger] s[i] <= 'z'
}

/// The parts of a conventional commit message, if it is one.
pub open spec fn parsed(s: Seq<char>) -> Option<CommitParts> {
    let c = colon_space_from(s, 0);
    if c >= s.len() {
        None
    } else {
        let prefix = s.take(c);
        let description = s.skip(c + 2);
        let breaking = prefix.len() > 0 && prefix.last() == '!';
        let tas = if breaking {
            prefix.drop_last()
        } else {
            prefix
        };
        let p = index_of(tas, '(');
        if p < tas.len() && !(tas.len() > 0 && tas.last() == ')') {
            None
        } else {
            let commit_type = tas.take(p);
            let scope = if p < tas.len() {
                Some(tas.subrange(p + 1, tas.len() - 1))
            } else {
                None
            };
            if commit_type.len() == 0 || !all_lower(commit_type) {
                None
            } else {
                Some((commit_type, scope, breaking, description))
            }
        }
    }
}

/// The emoji for a commit type.
pub open spec fn emoji_for(t: Seq<char>) -> Seq<char> {
    if t == "feat"@ {
        "âœ¨"@
    } else if t == "fix"@ {
        "ğŸ©¹"@
    } else if t == "docs"@ {
        "ğŸ“"@
    } else if t == "style"@ {
        "ğŸ’„"@
    } else if t == "refactor"@ {
        "ğŸ—ï¸"@
    } else if t == "perf"@ {
        "âš¡"@
    } else if t == "test"@ {
        "ğŸ§ª"@
    } else if t == "build"@ {
        "ğŸ“¦"@
    } else if t == "ci"@ {
        "ğŸ‘·"@
    } else if t == "chore"@ {
        "ğŸ”§"@
    } else if t == "revert"@ {
        "âª"@
    } else if t == "wip"@ {
        "ğŸš§"@
    } else if t == "hotfix"@ {
        "ğŸš‘"@
    } else if t == "security"@ {
        "ğŸ”’"@
    } else if t == "deps"@ {
        "â¬†ï¸"@
    } else if t == "release"@ {
        "ğŸ”–"@
    } else if t == "init"@ {
        "ğŸ‰"@
    } else {
        "ğŸ“Œ"@
    }
}

/// The emoji that marks a breaking change.
pub open spec fn breaking_mark() -> Seq<char> {
    "ğŸ’¥"@
}

/// The display form of the parts of a message.
pub open spec fn display_of(p: CommitParts) -> Seq<char> {
    let scope = match p.1 {
        Some(sc) => "("@ + sc + ")"@,
        None => Seq::empty(),
    };
    let mark = if p.2 {
        breaking_mark()
    } else {
        Seq::empty()
    };
    emoji_for(p.0) + scope + mark + " "@ + p.3
}

/// The view of an optional string slice.
pub open spec fn opt_str_view(o: Option<&str>) -> Option<Seq<char>> {
    match o {
        Some(s) => Some(s@),
        None => None,
    }
}

impl<'a> ConventionalCommit<'a> {
    /// The parts of this commit.
    pub open spec fn parts(&self) -> CommitParts {
        (self.commit_type@, opt_str_view(self.scope), self.breaking, self.description@)
    }

    /// Parses `<type>[(scope)][!]: <description>`; `None` when the message
    /// does not follow that form or the type is not lowercase letters.
    pub fn parse(message: &'a str) -> (r: Option<Self>)
        ensures
            r is None ==> parsed(message@) is None,
            r matches Some(c) ==> parsed(message@) == Some(c.parts()),
    {
        let cs = chars_of(message);
        let n = cs.len();
        let ghost s = cs@;
        let c = find_colon_space(&cs);
        if c >= n {
            return None;
        }
        let ghost prefix = s.take(c as int);
        let breaking = c > 0 && cs[c - 1] == '!';
        let tas_len: usize = if breaking {
            c - 1
        } else {
            c
        };
        let ghost tas = s.take(tas_len as int);
        assert(tas =~= if breaking {
            prefix.drop_last()
        } else {
            prefix
        });
        let p = find_in_prefix(&cs, tas_len, '(');
        let has_scope = p < tas_len;
        if has_scope && !(tas_len > 0 && cs[tas_len - 1] == ')') {
            return None;
        }
        assert(tas.take(p as int) =~= cs@.take(p as int));
        if !lowercase_prefix(&cs, p) {
            return None;
        }
        if p == 0 {
            return None;
        }
        let commit_type = message.substring_char(0, p);
        let scope = if has_scope {
            assert(cs@[p as int] == '(');
            Some(message.substring_char(p + 1, tas_len - 1))
        } else {
            None
        };
        let description = message.substring_char(c + 2, n);
        assert(commit_type@ =~= tas.take(p as int));
        assert(description@ =~= s.skip(c + 2));
        proof {
            if has_scope {
                assert(scope.unwrap()@ =~= tas.subrange(p + 1, tas.len() - 1));
            }
        }
        Some(ConventionalCommit { commit_type, scope, breaking, description })
    }

    /// The emoji for this commit's type.
    pub fn emoji(&self) -> (r: &'static str)
        ensures
            r@ == emoji_for(self.commit_type@),
    {
        type_to_emoji(self.commit_type)
    }

    /// The display form: emoji, `(scope)`, a mark when breaking, a space and the description.
    pub fn to_display(&self) -> (r: String)
        ensures
            r@ == display_of(self.parts()),
    {
        let mut r = String::from_str(self.emoji());
        match self.scope {
            Some(scope) => {
                r.append("(");
                r.append(scope);
                r.append(")");
            },
            None => {},
        }
        if self.breaking {
            r.append("ğŸ’¥");
        }
        r.append(" ");
        r.append(self.description);
        r
    }
}

/// Position of the first ": " in `cs`, or its length.
fn find_colon_space(cs: &Vec<char>) -> (r: usize)
    ensures
        r as int == colon_space_from(cs@, 0),
        r < cs@.len() ==> r + 1 < cs@.len(),
{
    let n = cs.len();
    let mut c: usize = 0;
    while n - c > 1 && !(cs[c] == ':' && cs[c + 1] == ' ')
        invariant
            n == cs@.len(),
            c <= n,
            colon_space_from(cs@, c as int) == colon_space_from(cs@, 0),
        decreases n - c,
    {
        c += 1;
    }
    if n - c <= 1 {
        return n;
    }
    c
}

/// Position of the first `ch` among the first `len` characters of `cs`, or `len`.
fn find_in_prefix(cs: &Vec<char>, len: usize, ch: char) -> (r: usize)
    requires
        len <= cs@.len(),
    ensures
        r as int == index_of(cs@.take(len as int), ch),
        r <= len,
        r < len ==> cs@[r as int] == ch,
{
    let ghost t = cs@.take(len as int);
    let mut p: usize = 0;
    assert(t.skip(0) =~= t);
    while p < len && cs[p] != ch
        invariant
            p <= len <= cs@.len(),
            t == cs@.take(len as int),
            index_of(t.skip(p as int), ch) + p == index_of(t, ch),
        decreases len - p,
    {
        assert(t.skip(p as int).drop_first() =~= t.skip(p + 1));
        p += 1;
    }
    if p < len {
        assert(t.skip(p as int)[0] == ch);
    } else {
        assert(t.skip(p as int).len() == 0);
    }
    p
}

/// Whether the first `p` characters of `cs` are lowercase letters.
fn lowercase_prefix(cs: &Vec<char>, p: usize) -> (r: bool)
    requires
        p <= cs@.len(),
    ensures
        r == all_lower(cs@.take(p as int)),
{
    let mut k: usize = 0;
    while k < p
        invariant
            k <= p <= cs@.len(),
            forall|i: int| 0 <= i < k ==> 'a' <= #[trigger] cs@[i] <= 'z',
        decreases p - k,
    {
        if !('a' <= cs[k] && cs[k] <= 'z') {
            assert(!('a' <= cs@.take(p as int)[k as int] <= 'z'));
            return false;
        }
        k += 1;
    }
    assert forall|i: int| 0 <= i < p implies 'a' <= #[trigger] cs@.take(p as int)[i] <= 'z' by {
        assert(cs@.take(p as int)[i] == cs@[i]);
    }
    true
}

/// Whether two strings hold the same characters.
fn same_text(a: &str, b: &str) -> (r: bool)
    ensures
        r == (a@ == b@),
{
    let x = chars_of(a);
    let y = chars_of(b);
    if x.len() != y.len() {
        return false;
    }
    let mut i: usize = 0;
    while i < x.len()
        invariant
            i <= x@.len(),
            x@ == a@,
            y@ == b@,
            x@.len() == y@.len(),
            forall|j: int| 0 <= j < i ==> x@[j] == y@[j],
        decreases x@.len() - i,
    {
        if x[i] != y[i] {
            return false;
        }
        i += 1;
    }
    assert(x@ =~= y@);
    true
}

/// The emoji for a commit type; a pin for an unknown type.
pub fn type_to_emoji(commit_type: &str) -> (r: &'static str)
    ensures
        r@ == emoji_for(commit_type@),
{
    if same_text(commit_type, "feat") {
        "âœ¨"
    } else if same_text(commit_type, "fix") {
        "ğŸ©¹"
    } else if same_text(commit_type, "docs") {
        "ğŸ“"
    } else if same_text(commit_type, "style") {
        "ğŸ’„"
    } else if same_text(commit_type, "refactor") {
        "ğŸ—ï¸"
    } else if same_text(commit_type, "perf") {
        "âš¡"
    } else if same_text(commit_type, "test") {
        "ğŸ§ª"
    } else if same_text(commit_type, "build") {
        "ğŸ“¦"
    } else if same_text(commit_type, "ci") {
        "ğŸ‘·"
    } else if same_text(commit_type, "chore") {
        "ğŸ”§"
    } else if same_text(commit_type, "revert") {
        "âª"
    } else if same_text(commit_type, "wip") {
        "ğŸš§"
    } else if same_text(commit_type, "hotfix") {
        "ğŸš‘"
    } else if same_text(commit_type, "security") {
        "ğŸ”’"
    } else if same_text(commit_type, "deps") {
        "â¬†ï¸"
    } else if same_text(commit_type, "release") {
        "ğŸ”–"
    } else if same_text(commit_type, "init") {
        "ğŸ‰"
    } else {
        "ğŸ“Œ"
    }
}

/// The message in display form when it is a conventional commit, else unchanged.
pub open spec fn formatted(message: Seq<char>) -> Seq<char> {
    match parsed(message) {
        Some(p) => display_of(p),
        None => message,
    }
}

/// Formats a commit message, converting a conventional commit to emoji form.
pub fn format_commit_message(message: &str) -> (r: String)
    ensures
        r@ == formatted(message@),
{
    match ConventionalCommit::parse(message) {
        Some(cc) => cc.to_display(),
        None => String::from_str(message),
    }
}

/// A description as the log shows it: in emoji form when conventional.
pub fn format_description(desc: &str) -> (r: String)
    ensures
        r@ == formatted(desc@),
{
    format_commit_message(desc)
}

} // verus!
