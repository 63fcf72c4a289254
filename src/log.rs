//! Log entries: the record type, its node glyph, and the sequencer that orders
//! a batch so that children precede their parents.

use vstd::prelude::*;

use crate::graph::ints;
use crate::text::{
    chars_of, is_true_str, line_ranges, lines, split_on, split_str, string_of, views,
};

verus! {

/// A single log entry.
#[derive(Debug, Clone)]
pub struct LogEntry {
    /// Short change ID (e.g., "abc123").
    pub change_id: String,
    /// Shortest unique prefix of change ID.
    pub change_id_prefix: String,
    /// Rest of change ID after the unique prefix.
    pub change_id_rest: String,
    /// Short commit ID.
    pub commit_id: String,
    /// Shortest unique prefix of commit ID.
    pub commit_id_prefix: String,
    /// Rest of commit ID after the unique prefix.
    pub commit_id_rest: String,
    /// Full commit ID (stable identifier used for graph construction).
    pub commit_id_full: String,
    /// Parent commit IDs (full IDs); the first is the main line.
    pub parent_commit_ids: Vec<String>,
    /// Author name.
    pub author: String,
    /// Relative timestamp (e.g., "2 hours ago").
    pub timestamp: String,
    /// First line of description.
    pub description: String,
    /// Whether this is the working copy (@).
    pub is_working_copy: bool,
    /// Whether this commit is immutable.
    pub is_immutable: bool,
    /// Whether this commit is empty.
    pub is_empty: bool,
    /// Bookmarks pointing to this commit.
    pub bookmarks: Vec<String>,
}

/// The node glyph of a commit: checked-out, immutable, or ordinary.
pub open spec fn node_glyph(is_working_copy: bool, is_immutable: bool) -> char {
    if is_working_copy {
        '@'
    } else if is_immutable {
        '◆'
    } else {
        '○'
    }
}

impl LogEntry {
    /// The identifier of this entry.
    pub open spec fn id(&self) -> Seq<char> {
        self.commit_id_full@
    }

    /// The parent identifiers of this entry, in order.
    pub open spec fn parent_ids(&self) -> Seq<Seq<char>> {
        self.parent_commit_ids@.map_values(|p: String| p@)
    }

    /// The graph symbol for this entry.
    pub fn graph_symbol(&self) -> (r: &'static str)
        ensures
            r@ == seq![node_glyph(self.is_working_copy, self.is_immutable)],
    {
        proof {
            reveal_strlit("@");
            reveal_strlit("◆");
            reveal_strlit("○");
        }
        if self.is_working_copy {
            "@"
        } else if self.is_immutable {
            "◆"
        } else {
            "○"
        }
    }

    /// The node glyph of this entry as a single character.
    pub fn node_char(&self) -> (c: char)
        ensures
            c == node_glyph(self.is_working_copy, self.is_immutable),
    {
        if self.is_working_copy {
            '@'
        } else if self.is_immutable {
            '◆'
        } else {
            '○'
        }
    }
}

/// `i` is the last entry of the batch with identifier `id`.
pub open spec fn is_last_with_id(entries: Seq<LogEntry>, id: Seq<char>, i: int) -> bool {
    &&& 0 <= i < entries.len()
    &&& entries[i].id() == id
    &&& forall|j: int| i < j < entries.len() ==> entries[j].id() != id
}

/// The entry that an identifier stands for in the batch: the last one with
/// that identifier, or -1 when none has it.
pub open spec fn resolve(entries: Seq<LogEntry>, id: Seq<char>) -> int {
    if exists|i: int| is_last_with_id(entries, id, i) {
        choose|i: int| is_last_with_id(entries, id, i)
    } else {
        -1
    }
}

/// Entry `i` names entry `j` as one of its parents.
pub open spec fn names_parent(entries: Seq<LogEntry>, i: int, j: int) -> bool {
    &&& 0 <= i < entries.len()
    &&& exists|q: int|
        0 <= q < entries[i].parent_ids().len() && resolve(entries, #[trigger] entries[i].parent_ids()[q]) == j
}

/// Entry `j` is not emitted and no entry that is still waiting names it as a parent.
pub open spec fn is_ready(entries: Seq<LogEntry>, emitted: Set<int>, j: int) -> bool {
    &&& 0 <= j < entries.len()
    &&& !emitted.contains(j)
    &&& forall|i: int|
        0 <= i < entries.len() && !emitted.contains(i) ==> !#[trigger] names_parent(entries, i, j)
}

/// Entry `a` goes before entry `b` when both are ready: the checked-out one
/// first, then the one that came first in the batch.
pub open spec fn ranks_before(entries: Seq<LogEntry>, a: int, b: int) -> bool {
    ||| (entries[a].is_working_copy && !entries[b].is_working_copy)
    ||| (entries[a].is_working_copy == entries[b].is_working_copy && a < b)
}

/// Entry `j` is ready and goes before every other ready entry.
pub open spec fn is_best_ready(entries: Seq<LogEntry>, emitted: Set<int>, j: int) -> bool {
    &&& is_ready(entries, emitted, j)
    &&& forall|k: int| #[trigger]
        is_ready(entries, emitted, k) && k != j ==> ranks_before(entries, j, k)
}

/// The first `m` places of `order` are picked greedily among the ready entries,
/// none is ready after them, and the rest follow in batch order.
pub open spec fn kahn_prefix(entries: Seq<LogEntry>, order: Seq<int>, m: int) -> bool {
    &&& 0 <= m <= order.len()
    &&& forall|k: int| 0 <= k < m ==> is_best_ready(entries, order.take(k).to_set(), #[trigger] order[k])
    &&& forall|j: int| !is_ready(entries, order.take(m).to_set(), j)
    &&& forall|k1: int, k2: int| m <= k1 < k2 < order.len() ==> order[k1] < order[k2]
}

/// `order` (a permutation of the batch positions) is the display order of `entries`.
pub open spec fn is_sequence_order(entries: Seq<LogEntry>, order: Seq<int>) -> bool {
    &&& order.len() == entries.len()
    &&& forall|k: int| 0 <= k < order.len() ==> 0 <= #[trigger] order[k] < entries.len()
    &&& order.no_duplicates()
    &&& forall|x: int| 0 <= x < entries.len() ==> order.contains(x)
    &&& exists|m: int| kahn_prefix(entries, order, m)
}

/// The entries at the positions of `order`.
pub open spec fn permuted(entries: Seq<LogEntry>, order: Seq<int>) -> Seq<LogEntry> {
    order.map_values(|i: int| entries[i])
}

/// `result` is the batch `entries` in display order.
pub open spec fn is_sequenced(entries: Seq<LogEntry>, result: Seq<LogEntry>) -> bool {
    exists|order: Seq<int>| is_sequence_order(entries, order) && result == permuted(entries, order)
}

/// Parent links never lead back: some rank grows along every link from a
/// child to a parent.
pub open spec fn is_acyclic(entries: Seq<LogEntry>) -> bool {
    exists|rank: spec_fn(int) -> nat| #[trigger] rank_grows(entries, rank)
}

/// `rank` grows along every link from a child to a parent.
pub open spec fn rank_grows(entries: Seq<LogEntry>, rank: spec_fn(int) -> nat) -> bool {
    forall|i: int, j: int| #[trigger] names_parent(entries, i, j) ==> rank(i) < rank(j)
}

/// Some entry is ready while an entry is still waiting in an acyclic batch.
proof fn lemma_some_ready(entries: Seq<LogEntry>, emitted: Set<int>, rank: spec_fn(int) -> nat, j: int)
    requires
        rank_grows(entries, rank),
        0 <= j < entries.len(),
        !emitted.contains(j),
    ensures
        exists|x: int| is_ready(entries, emitted, x),
    decreases rank(j),
{
    if !is_ready(entries, emitted, j) {
        let i = choose|i: int|
            0 <= i < entries.len() && !emitted.contains(i) && #[trigger] names_parent(entries, i, j);
        lemma_some_ready(entries, emitted, rank, i);
    }
}

/// In an acyclic batch every entry is placed by the greedy phase.
proof fn lemma_acyclic_all_greedy(entries: Seq<LogEntry>, order: Seq<int>, m: int)
    requires
        is_acyclic(entries),
        is_sequence_order(entries, order),
        kahn_prefix(entries, order, m),
    ensures
        m == entries.len(),
{
    if m < entries.len() {
        let rank = choose|rank: spec_fn(int) -> nat| #[trigger] rank_grows(entries, rank);
        let e = order.take(m).to_set();
        let j = order[m];
        if e.contains(j) {
            let c = choose|c: int| 0 <= c < m && order.take(m)[c] == j;
            assert(order[c] == order[m]);
        }
        lemma_some_ready(entries, e, rank, j);
    }
}

/// Laying out the sequenced batch gives exactly one row per entry.
pub proof fn lemma_row_count(
    entries: Seq<LogEntry>,
    sequenced: Seq<LogEntry>,
    rows: Seq<crate::graph::GraphRow>,
)
    requires
        is_sequenced(entries, sequenced),
        crate::graph::is_layout(sequenced, rows),
    ensures
        rows.len() == entries.len(),
{
}

/// In an acyclic batch, every entry comes before each entry that it names
/// as a parent.
pub proof fn lemma_children_first(entries: Seq<LogEntry>, sequenced: Seq<LogEntry>, order: Seq<int>, a: int, b: int)
    requires
        is_acyclic(entries),
        is_sequence_order(entries, order),
        sequenced == permuted(entries, order),
        0 <= a < order.len(),
        0 <= b < order.len(),
        names_parent(entries, order[a], order[b]),
    ensures
        a < b,
{
    let m = choose|m: int| kahn_prefix(entries, order, m);
    lemma_acyclic_all_greedy(entries, order, m);
    let e = order.take(b).to_set();
    assert(is_best_ready(entries, e, order[b]));
    assert(e.contains(order[a]));
    let c = choose|c: int| 0 <= c < b && order.take(b)[c] == order[a];
    assert(order[c] == order[a]);
}

/// The order of a sequenced batch exists, so the laws above can name it.
pub proof fn lemma_sequenced_order(entries: Seq<LogEntry>, sequenced: Seq<LogEntry>) -> (order: Seq<int>)
    requires
        is_sequenced(entries, sequenced),
    ensures
        is_sequence_order(entries, order),
        sequenced == permuted(entries, order),
{
    choose|order: Seq<int>| is_sequence_order(entries, order) && sequenced == permuted(entries, order)
}

/// When exactly one entry is checked out and no entry of the batch names it
/// as a parent, it is the first entry of the sequenced batch.
pub proof fn lemma_checked_out_first(entries: Seq<LogEntry>, sequenced: Seq<LogEntry>, w: int)
    requires
        is_sequenced(entries, sequenced),
        0 <= w < entries.len(),
        entries[w].is_working_copy,
        forall|i: int| 0 <= i < entries.len() && i != w ==> !(#[trigger] entries[i]).is_working_copy,
        forall|i: int| !#[trigger] names_parent(entries, i, w),
    ensures
        sequenced.len() > 0,
        sequenced[0] == entries[w],
{
    let order = lemma_sequenced_order(entries, sequenced);
    let m = choose|m: int| kahn_prefix(entries, order, m);
    let e = order.take(0).to_set();
    assert(order.take(0).to_set() =~= Set::<int>::empty());
    assert(is_ready(entries, e, w));
    assert(m > 0);
    assert(is_best_ready(entries, e, order[0]));
    if order[0] != w {
        assert(ranks_before(entries, order[0], w));
    }
}

/// No two entries of the batch share an identifier.
pub open spec fn unique_ids(entries: Seq<LogEntry>) -> bool {
    forall|i: int, j: int|
        0 <= i < entries.len() && 0 <= j < entries.len() && i != j ==> #[trigger] entries[i].id()
            != #[trigger] entries[j].id()
}

proof fn lemma_best_unique(entries: Seq<LogEntry>, e: Set<int>, a: int, b: int)
    requires
        is_best_ready(entries, e, a),
        is_best_ready(entries, e, b),
    ensures
        a == b,
{
    if a != b {
        assert(ranks_before(entries, a, b));
        assert(ranks_before(entries, b, a));
    }
}

proof fn lemma_prefix_some_ready(entries: Seq<LogEntry>, o: Seq<int>, m: int, k: int)
    requires
        kahn_prefix(entries, o, m),
        0 <= k < m,
    ensures
        exists|x: int| is_ready(entries, o.take(k).to_set(), x),
{
    assert(is_best_ready(entries, o.take(k).to_set(), o[k]));
}

/// The first `k` places of two display orders of one batch agree.
proof fn lemma_orders_agree(entries: Seq<LogEntry>, o1: Seq<int>, o2: Seq<int>, k: int)
    requires
        is_sequence_order(entries, o1),
        is_sequence_order(entries, o2),
        0 <= k <= entries.len(),
    ensures
        o1.take(k) == o2.take(k),
    decreases k,
{
    if k > 0 {
        let j = k - 1;
        lemma_orders_agree(entries, o1, o2, j);
        let m1 = choose|m: int| kahn_prefix(entries, o1, m);
        let m2 = choose|m: int| kahn_prefix(entries, o2, m);
        let e = o1.take(j).to_set();
        assert(o2.take(j).to_set() == e);
        if j < m1 && j < m2 {
            lemma_best_unique(entries, e, o1[j], o2[j]);
        } else if j < m1 {
            lemma_prefix_some_ready(entries, o1, m1, m2);
            assert(o1.take(m2) =~= o2.take(m2)) by {
                assert forall|t: int| 0 <= t < m2 implies o1[t] == o2[t] by {
                    assert(o1.take(j)[t] == o2.take(j)[t]);
                }
            }
        } else if j < m2 {
            lemma_prefix_some_ready(entries, o2, m2, m1);
            assert(o1.take(m1) =~= o2.take(m1)) by {
                assert forall|t: int| 0 <= t < m1 implies o1[t] == o2[t] by {
                    assert(o1.take(j)[t] == o2.take(j)[t]);
                }
            }
        } else if o1[j] != o2[j] {
            if o1[j] < o2[j] {
                lemma_later_smaller(entries, o1, o2, j, m2);
            } else {
                lemma_later_smaller(entries, o2, o1, j, m1);
            }
        }
        assert(o1.take(k) =~= o2.take(k)) by {
            assert forall|t: int| 0 <= t < k implies o1.take(k)[t] == o2.take(k)[t] by {
                if t < j {
                    assert(o1.take(j)[t] == o2.take(j)[t]);
                }
            }
        }
    }
}

/// Past the greedy phase of `o2`, after an agreeing prefix `o2` places the
/// smallest entry left, so `o1` cannot place a smaller one.
proof fn lemma_later_smaller(entries: Seq<LogEntry>, o1: Seq<int>, o2: Seq<int>, j: int, m2: int)
    requires
        is_sequence_order(entries, o1),
        is_sequence_order(entries, o2),
        kahn_prefix(entries, o2, m2),
        0 <= j < entries.len(),
        m2 <= j,
        o1.take(j) == o2.take(j),
    ensures
        o1[j] >= o2[j],
{
    let x = o1[j];
    assert(o2.contains(x));
    let t = choose|t: int| 0 <= t < o2.len() && o2[t] == x;
    if t < j {
        assert(o2.take(j)[t] == o2[t]);
        assert(o1.take(j)[t] == o1[t]);
        assert(o1[t] == x);
        assert(o1.no_duplicates());
    }
}

/// With distinct identifiers, an identifier stands for entry `x` exactly when `x` has it.
proof fn lemma_resolve_unique(entries: Seq<LogEntry>, p: Seq<char>, x: int)
    requires
        unique_ids(entries),
        0 <= x < entries.len(),
    ensures
        resolve(entries, p) == x <==> entries[x].id() == p,
{
    if entries[x].id() == p {
        assert(is_last_with_id(entries, p, x));
        let w = choose|w: int| is_last_with_id(entries, p, w);
        assert(entries[w].id() == entries[x].id());
    }
    if resolve(entries, p) == x {
        let w = choose|w: int| is_last_with_id(entries, p, w);
        assert(is_last_with_id(entries, p, w));
    }
}

/// Parent links of a sequenced batch are those of the batch, moved along with the entries.
proof fn lemma_links_moved(entries: Seq<LogEntry>, order: Seq<int>, a: int, b: int)
    requires
        unique_ids(entries),
        unique_ids(permuted(entries, order)),
        is_sequence_order(entries, order),
        0 <= a < order.len(),
        0 <= b < order.len(),
    ensures
        names_parent(permuted(entries, order), a, b) <==> names_parent(entries, order[a], order[b]),
{
    let s = permuted(entries, order);
    assert(s[a] == entries[order[a]]);
    assert(s[b] == entries[order[b]]);
    if names_parent(s, a, b) {
        let q = choose|q: int| 0 <= q < s[a].parent_ids().len() && resolve(s, #[trigger] s[a].parent_ids()[q]) == b;
        lemma_resolve_unique(s, s[a].parent_ids()[q], b);
        lemma_resolve_unique(entries, s[a].parent_ids()[q], order[b]);
        assert(resolve(entries, entries[order[a]].parent_ids()[q]) == order[b]);
    }
    if names_parent(entries, order[a], order[b]) {
        let ea = entries[order[a]];
        let q = choose|q: int| 0 <= q < ea.parent_ids().len() && resolve(entries, #[trigger] ea.parent_ids()[q]) == order[b];
        lemma_resolve_unique(s, ea.parent_ids()[q], b);
        lemma_resolve_unique(entries, ea.parent_ids()[q], order[b]);
        assert(resolve(s, s[a].parent_ids()[q]) == b);
    }
}

/// Readiness in a sequenced batch is readiness of the moved entries.
proof fn lemma_ready_moved(entries: Seq<LogEntry>, order: Seq<int>, k: int, b: int)
    requires
        unique_ids(entries),
        unique_ids(permuted(entries, order)),
        is_sequence_order(entries, order),
        0 <= k <= order.len(),
        0 <= b < order.len(),
    ensures
        is_ready(permuted(entries, order), Seq::new(order.len(), |i: int| i).take(k).to_set(), b)
            <==> is_ready(entries, order.take(k).to_set(), order[b]),
{
    let s = permuted(entries, order);
    let n = order.len();
    let e2 = Seq::new(n, |i: int| i).take(k).to_set();
    let e1 = order.take(k).to_set();
    let ids_k = Seq::new(n, |i: int| i).take(k);
    assert forall|i: int| 0 <= i < n implies (e2.contains(i) <==> e1.contains(order[i])) by {
        if e2.contains(i) {
            assert(ids_k.contains(i));
            let t = choose|t: int| 0 <= t < ids_k.len() && #[trigger] ids_k[t] == i;
            assert(order.take(k)[i] == order[i]);
        }
        if e1.contains(order[i]) {
            let ok = order.take(k);
            assert(ok.contains(order[i]));
            let t = choose|t: int| 0 <= t < ok.len() && #[trigger] ok[t] == order[i];
            assert(order[t] == order[i]);
            assert(ids_k[i] == i);
        }
    }
    if is_ready(s, e2, b) {
        assert forall|j: int| 0 <= j < n && !e1.contains(j) implies !#[trigger] names_parent(entries, j, order[b]) by {
            assert(order.contains(j));
            let i = choose|i: int| 0 <= i < n && order[i] == j;
            lemma_links_moved(entries, order, i, b);
        }
    }
    if is_ready(entries, e1, order[b]) {
        assert forall|i: int| 0 <= i < n && !e2.contains(i) implies !#[trigger] names_parent(s, i, b) by {
            lemma_links_moved(entries, order, i, b);
        }
    }
}

/// Sequencing a batch with distinct identifiers a second time keeps the
/// order it already has.
pub proof fn lemma_sequence_idempotent(entries: Seq<LogEntry>, once: Seq<LogEntry>, twice: Seq<LogEntry>)
    requires
        unique_ids(entries),
        is_sequenced(entries, once),
        is_sequenced(once, twice),
    ensures
        twice == once,
{
    let order = lemma_sequenced_order(entries, once);
    let order2 = lemma_sequenced_order(once, twice);
    let n = entries.len();
    let id = Seq::new(n, |i: int| i);
    assert(unique_ids(once)) by {
        assert forall|a: int, b: int|
            0 <= a < n && 0 <= b < n && a != b implies #[trigger] once[a].id() != #[trigger] once[b].id() by {
            assert(once[a] == entries[order[a]]);
            assert(once[b] == entries[order[b]]);
        }
    }
    let m = choose|m: int| kahn_prefix(entries, order, m);
    assert forall|k: int| 0 <= k < m implies is_best_ready(once, id.take(k).to_set(), #[trigger] id[k]) by {
        let e1 = order.take(k).to_set();
        assert(is_best_ready(entries, e1, order[k]));
        lemma_ready_moved(entries, order, k, k);
        assert forall|b: int| #[trigger] is_ready(once, id.take(k).to_set(), b) && b != k implies ranks_before(once, k, b) by {
            lemma_ready_moved(entries, order, k, b);
            assert(!id.take(k).to_set().contains(b));
            if b < k {
                assert(id.take(k)[b] == b);
            }
            assert(order[b] != order[k]);
            assert(once[k] == entries[order[k]]);
            assert(once[b] == entries[order[b]]);
        }
    }
    assert forall|b: int| !is_ready(once, id.take(m).to_set(), b) by {
        if 0 <= b < n {
            lemma_ready_moved(entries, order, m, b);
        }
    }
    assert(kahn_prefix(once, id, m));
    assert forall|x: int| 0 <= x < n implies id.contains(x) by {
        assert(id[x] == x);
    }
    assert(is_sequence_order(once, id));
    assert(order2.take(n as int) == id.take(n as int)) by {
        lemma_orders_agree(once, order2, id, n as int);
    }
    assert(order2.take(n as int) =~= order2);
    assert(id.take(n as int) =~= id);
    assert(order2 =~= id);
    assert(twice =~= once);
}

/// Number of set flags.
pub open spec fn num_set(flags: Seq<bool>) -> nat
    decreases flags.len(),
{
    if flags.len() == 0 {
        0
    } else {
        num_set(flags.drop_last()) + if flags.last() {
            1nat
        } else {
            0nat
        }
    }
}

proof fn lemma_num_set_update(flags: Seq<bool>, i: int)
    requires
        0 <= i < flags.len(),
        !flags[i],
    ensures
        num_set(flags.update(i, true)) == num_set(flags) + 1,
    decreases flags.len(),
{
    let g = flags.update(i, true);
    if i == flags.len() - 1 {
        assert(g.drop_last() =~= flags.drop_last());
    } else {
        assert(g.drop_last() =~= flags.drop_last().update(i, true));
        lemma_num_set_update(flags.drop_last(), i);
    }
}

proof fn lemma_num_set_bound(flags: Seq<bool>)
    ensures
        num_set(flags) <= flags.len(),
        num_set(flags) == flags.len() ==> forall|i: int| 0 <= i < flags.len() ==> flags[i],
    decreases flags.len(),
{
    if flags.len() > 0 {
        lemma_num_set_bound(flags.drop_last());
        if num_set(flags) == flags.len() {
            assert forall|i: int| 0 <= i < flags.len() implies flags[i] by {
                if i < flags.len() - 1 {
                    assert(flags.drop_last()[i] == flags[i]);
                }
            }
        }
    }
}

/// Position in the batch of the entry that `id` stands for, or the batch
/// length when no entry has it.
fn resolve_index(entries: &Vec<LogEntry>, id: &String) -> (r: usize)
    ensures
        resolve(entries@, id@) >= 0 ==> r as int == resolve(entries@, id@),
        resolve(entries@, id@) < 0 ==> r == entries@.len(),
        r <= entries@.len(),
{
    let mut i: usize = entries.len();
    while i > 0
        invariant
            i <= entries@.len(),
            forall|j: int| i <= j < entries@.len() ==> entries@[j].id() != id@,
        decreases i,
    {
        i -= 1;
        if entries[i].commit_id_full == *id {
            proof {
                let w = choose|w: int| is_last_with_id(entries@, id@, w);
                assert(is_last_with_id(entries@, id@, i as int));
                assert(w == i as int);
            }
            return i;
        }
    }
    entries.len()
}

/// The resolved parent positions of every entry.
fn parent_positions(entries: &Vec<LogEntry>) -> (r: Vec<Vec<usize>>)
    ensures
        r@.len() == entries@.len(),
        forall|i: int|
            0 <= i < entries@.len() ==> (#[trigger] r@[i])@.len() == entries@[i].parent_ids().len(),
        forall|i: int, q: int|
            0 <= i < entries@.len() && 0 <= q < entries@[i].parent_ids().len() ==> {
                let t = resolve(entries@, entries@[i].parent_ids()[q]);
                &&& t >= 0 ==> (#[trigger] r@[i]@[q]) as int == t
                &&& t < 0 ==> r@[i]@[q] == entries@.len()
            },
{
    let mut out: Vec<Vec<usize>> = Vec::new();
    let mut i: usize = 0;
    while i < entries.len()
        invariant
            i <= entries@.len(),
            out@.len() == i,
            forall|a: int| 0 <= a < i ==> (#[trigger] out@[a])@.len() == entries@[a].parent_ids().len(),
            forall|a: int, q: int|
                0 <= a < i && 0 <= q < entries@[a].parent_ids().len() ==> {
                    let t = resolve(entries@, entries@[a].parent_ids()[q]);
                    &&& t >= 0 ==> (#[trigger] out@[a]@[q]) as int == t
                    &&& t < 0 ==> out@[a]@[q] == entries@.len()
                },
        decreases entries@.len() - i,
    {
        let ps = &entries[i].parent_commit_ids;
        let mut row: Vec<usize> = Vec::new();
        let mut q: usize = 0;
        while q < ps.len()
            invariant
                q <= ps@.len(),
                *ps == entries@[i as int].parent_commit_ids,
                row@.len() == q,
                forall|b: int|
                    0 <= b < q ==> {
                        let t = resolve(entries@, entries@[i as int].parent_ids()[b]);
                        &&& t >= 0 ==> (#[trigger] row@[b]) as int == t
                        &&& t < 0 ==> row@[b] == entries@.len()
                    },
            decreases ps@.len() - q,
        {
            let t = resolve_index(entries, &ps[q]);
            row.push(t);
            q += 1;
        }
        out.push(row);
        i += 1;
    }
    out
}

/// `pidx` holds the resolved parent positions of `entries` (the batch length
/// where a parent is outside the batch).
pub open spec fn positions_ok(entries: Seq<LogEntry>, pidx: Seq<Vec<usize>>) -> bool {
    &&& pidx.len() == entries.len()
    &&& forall|i: int| 0 <= i < entries.len() ==> (#[trigger] pidx[i])@.len() == entries[i].parent_ids().len()
    &&& forall|i: int, q: int|
        0 <= i < entries.len() && 0 <= q < entries[i].parent_ids().len() ==> {
            let t = resolve(entries, entries[i].parent_ids()[q]);
            &&& t >= 0 ==> (#[trigger] pidx[i]@[q]) as int == t
            &&& t < 0 ==> pidx[i]@[q] == entries.len()
        }
}

/// `flags` marks exactly the members of `emitted` among the batch positions.
pub open spec fn flags_ok(flags: Seq<bool>, emitted: Set<int>, n: int) -> bool {
    &&& flags.len() == n
    &&& forall|j: int| 0 <= j < n ==> #[trigger] flags[j] == emitted.contains(j)
    &&& forall|j: int| emitted.contains(j) ==> 0 <= j < n
}

proof fn lemma_names_parent_position(entries: Seq<LogEntry>, pidx: Seq<Vec<usize>>, i: int, j: int)
    requires
        positions_ok(entries, pidx),
        0 <= i < entries.len(),
        0 <= j < entries.len(),
    ensures
        names_parent(entries, i, j) <==> exists|q: int|
            0 <= q < pidx[i]@.len() && #[trigger] pidx[i]@[q] as int == j,
{
    if names_parent(entries, i, j) {
        let q = choose|q: int|
            0 <= q < entries[i].parent_ids().len() && resolve(entries, #[trigger] entries[i].parent_ids()[q]) == j;
        assert(pidx[i]@[q] as int == j);
    }
    if exists|q: int| 0 <= q < pidx[i]@.len() && #[trigger] pidx[i]@[q] as int == j {
        let q = choose|q: int| 0 <= q < pidx[i]@.len() && #[trigger] pidx[i]@[q] as int == j;
        assert(resolve(entries, entries[i].parent_ids()[q]) == j);
    }
}

/// Emitting `b` makes ready only entries that `b` names as parents.
proof fn lemma_newly_ready(entries: Seq<LogEntry>, emitted: Set<int>, b: int, x: int)
    requires
        0 <= b < entries.len(),
        is_ready(entries, emitted.insert(b), x),
        !is_ready(entries, emitted, x),
        !emitted.contains(b),
    ensures
        names_parent(entries, b, x),
{
    let i = choose|i: int|
        0 <= i < entries.len() && !emitted.contains(i) && #[trigger] names_parent(entries, i, x);
    if i != b {
        assert(!emitted.insert(b).contains(i));
    }
}

/// Whether entry `j` is ready.
fn check_ready(
    Ghost(entries): Ghost<Seq<LogEntry>>,
    Ghost(emitted): Ghost<Set<int>>,
    pidx: &Vec<Vec<usize>>,
    flags: &Vec<bool>,
    j: usize,
) -> (r: bool)
    requires
        positions_ok(entries, pidx@),
        flags_ok(flags@, emitted, entries.len() as int),
        j < entries.len(),
    ensures
        r == is_ready(entries, emitted, j as int),
{
    if flags[j] {
        return false;
    }
    let n = flags.len();
    let mut i: usize = 0;
    while i < n
        invariant
            n == entries.len(),
            i <= n,
            positions_ok(entries, pidx@),
            flags_ok(flags@, emitted, n as int),
            j < n,
            forall|a: int| 0 <= a < i && !emitted.contains(a) ==> !#[trigger] names_parent(entries, a, j as int),
        decreases n - i,
    {
        if !flags[i] {
            let row = &pidx[i];
            let mut q: usize = 0;
            while q < row.len()
                invariant
                    *row == pidx@[i as int],
                    n == entries.len(),
                    i < n,
                    j < n,
                    positions_ok(entries, pidx@),
                    flags_ok(flags@, emitted, n as int),
                    !flags@[i as int],
                    q <= row@.len(),
                    forall|c: int| 0 <= c < q ==> row@[c] != j,
                decreases row@.len() - q,
            {
                if row[q] == j {
                    proof {
                        lemma_names_parent_position(entries, pidx@, i as int, j as int);
                        assert(pidx@[i as int]@[q as int] as int == j as int);
                        assert(!flags@[i as int]);
                        assert(names_parent(entries, i as int, j as int));
                    }
                    return false;
                }
                q += 1;
            }
            proof {
                lemma_names_parent_position(entries, pidx@, i as int, j as int);
            }
        }
        i += 1;
    }
    true
}

/// Whether entry `a` goes before entry `b` when both are ready.
fn goes_before(entries: &Vec<LogEntry>, a: usize, b: usize) -> (r: bool)
    requires
        a < entries@.len(),
        b < entries@.len(),
    ensures
        r == ranks_before(entries@, a as int, b as int),
{
    let wa = entries[a].is_working_copy;
    let wb = entries[b].is_working_copy;
    (wa && !wb) || (wa == wb && a < b)
}

/// The display order of a batch, as positions in the batch.
fn sequence_order(entries: &Vec<LogEntry>) -> (order: Vec<usize>)
    ensures
        is_sequence_order(entries@, ints(order@)),
{
    broadcast use Seq::lemma_push_to_set_commute, Seq::lemma_push_map_commute, vstd::seq_lib::lemma_seq_contains_after_push;

    let n = entries.len();
    let ghost es = entries@;
    let pidx = parent_positions(entries);
    let mut flags: Vec<bool> = Vec::new();
    while flags.len() < n
        invariant
            flags@.len() <= n,
            forall|j: int| 0 <= j < flags@.len() ==> !#[trigger] flags@[j],
        decreases n - flags@.len(),
    {
        flags.push(false);
    }
    let ghost mut emitted: Set<int> = Set::empty();
    assert(num_set(flags@) == 0) by {
        lemma_num_set_zero(flags@);
    }

    // Heads: entries that no entry of the batch names as a parent.
    let mut ready: Vec<usize> = Vec::new();
    let mut j: usize = 0;
    while j < n
        invariant
            n == es.len(),
            j <= n,
            positions_ok(es, pidx@),
            flags_ok(flags@, emitted, n as int),
            emitted == Set::<int>::empty(),
            ready@.no_duplicates(),
            forall|x: usize| #[trigger] ready@.contains(x) <==> (x < j && is_ready(es, emitted, x as int)),
        decreases n - j,
    {
        let ghost before = ready@;
        if check_ready(Ghost(es), Ghost(emitted), &pidx, &flags, j) {
            proof {
                lemma_push_fresh(ready@, j);
            }
            ready.push(j);
        }
        assert forall|x: usize| #[trigger] ready@.contains(x) <==> (x < j + 1 && is_ready(es, emitted, x as int)) by {
            vstd::seq_lib::lemma_seq_contains_after_push(before, j, x);
        }
        j += 1;
    }

    let mut order: Vec<usize> = Vec::new();
    while ready.len() > 0
        invariant
            n == es.len(),
            es == entries@,
            positions_ok(es, pidx@),
            flags_ok(flags@, emitted, n as int),
            emitted == ints(order@).to_set(),
            num_set(flags@) == order@.len(),
            ready@.no_duplicates(),
            forall|x: usize| #[trigger] ready@.contains(x) <==> is_ready(es, emitted, x as int),
            forall|x: int| is_ready(es, emitted, x) ==> 0 <= x < n,
            ints(order@).no_duplicates(),
            forall|k: int| 0 <= k < order@.len() ==> #[trigger] order@[k] < n,
            forall|k: int|
                0 <= k < order@.len() ==> is_best_ready(es, ints(order@).take(k).to_set(), #[trigger] ints(order@)[k]),
        decreases n - order@.len(),
    {
        proof {
            lemma_num_set_bound(flags@);
        }
        // Pick the ready entry that goes first.
        let mut bi: usize = 0;
        let mut t: usize = 1;
        while t < ready.len()
            invariant
                bi < t <= ready@.len(),
                forall|x: usize| #[trigger] ready@.contains(x) ==> x < n,
                n == es.len(),
                es == entries@,
                ready@.no_duplicates(),
                forall|u: int| 0 <= u < t && u != bi ==> ranks_before(es, ready@[bi as int] as int, #[trigger] ready@[u] as int),
            decreases ready@.len() - t,
        {
            assert(ready@.contains(ready@[t as int]));
            assert(ready@.contains(ready@[bi as int]));
            if goes_before(entries, ready[t], ready[bi]) {
                bi = t;
            }
            t += 1;
        }
        let ghost old_ready = ready@;
        let ghost old_emitted = emitted;
        let ghost old_order = ints(order@);
        let b = ready.remove(bi);
        assert(old_ready.contains(b));
        assert(is_best_ready(es, old_emitted, b as int)) by {
            assert forall|k: int| #[trigger] is_ready(es, old_emitted, k) && k != b implies ranks_before(es, b as int, k) by {
                assert(old_ready.contains(k as usize));
                let u = choose|u: int| 0 <= u < old_ready.len() && old_ready[u] == k as usize;
            }
        }
        assert forall|x: usize| #[trigger] ready@.contains(x) <==> (old_ready.contains(x) && x != b) by {
            if ready@.contains(x) {
                let u = choose|u: int| 0 <= u < ready@.len() && ready@[u] == x;
                if u < bi {
                    assert(old_ready[u] == x);
                } else {
                    assert(old_ready[u + 1] == x);
                }
            }
            if old_ready.contains(x) && x != b {
                let u = choose|u: int| 0 <= u < old_ready.len() && old_ready[u] == x;
                if u < bi {
                    assert(ready@[u] == x);
                } else {
                    assert(ready@[u - 1] == x);
                }
            }
        }
        proof {
            lemma_num_set_update(flags@, b as int);
        }
        flags.set(b, true);
        order.push(b);
        proof {
            lemma_num_set_bound(flags@);
            emitted = emitted.insert(b as int);
            assert(ints(order@) =~= old_order.push(b as int));
            old_order.lemma_push_to_set_commute(b as int);
            assert forall|k: int| 0 <= k < order@.len() implies is_best_ready(es, ints(order@).take(k).to_set(), #[trigger] ints(order@)[k]) by {
                if k < old_order.len() {
                    assert(ints(order@).take(k) =~= old_order.take(k));
                } else {
                    assert(ints(order@).take(k) =~= old_order);
                }
            }
        }

        // Parents of `b` that became ready.
        let row = &pidx[b];
        let mut q: usize = 0;
        while q < row.len()
            invariant
                n == es.len(),
                *row == pidx@[b as int],
                b < n,
                q <= row@.len(),
                positions_ok(es, pidx@),
                flags_ok(flags@, emitted, n as int),
                emitted == old_emitted.insert(b as int),
                !old_emitted.contains(b as int),
                ready@.no_duplicates(),
                forall|x: usize| #[trigger] ready@.contains(x) <==> (is_ready(es, emitted, x as int) && (is_ready(
                    es,
                    old_emitted,
                    x as int,
                ) || row@.take(q as int).contains(x))),
            decreases row@.len() - q,
        {
            let p = row[q];
            let ghost before = ready@;
            if p < n && !flags[p] && !contains_position(&ready, p) && check_ready(
                Ghost(es),
                Ghost(emitted),
                &pidx,
                &flags,
                p,
            ) {
                proof {
                    lemma_push_fresh(ready@, p);
                }
                ready.push(p);
            }
            assert(row@.take(q + 1) =~= row@.take(q as int).push(p));
            assert forall|x: usize| #[trigger] ready@.contains(x) <==> (is_ready(es, emitted, x as int) && (
            is_ready(es, old_emitted, x as int) || row@.take(q + 1).contains(x))) by {
                vstd::seq_lib::lemma_seq_contains_after_push(row@.take(q as int), p, x);
                vstd::seq_lib::lemma_seq_contains_after_push(before, p, x);
                if p < n {
                    assert(flags@[p as int] == emitted.contains(p as int));
                }
            }
            q += 1;
        }
        assert forall|x: usize| #[trigger] ready@.contains(x) <==> is_ready(es, emitted, x as int) by {
            if is_ready(es, emitted, x as int) && !is_ready(es, old_emitted, x as int) {
                lemma_newly_ready(es, old_emitted, b as int, x as int);
                lemma_names_parent_position(es, pidx@, b as int, x as int);
                let c = choose|c: int| 0 <= c < pidx@[b as int]@.len() && #[trigger] pidx@[b as int]@[c] as int == x as int;
                assert(row@.take(row@.len() as int)[c] == x);
            }
            assert(row@.take(row@.len() as int) =~= row@);
        }
        assert(ints(order@).no_duplicates()) by {
            assert(!old_order.contains(b as int));
            lemma_push_fresh(old_order, b as int);
        }
    }

    // Nothing is ready: the rest follows in batch order.
    let ghost m = order@.len() as int;
    let ghost prefix = ints(order@);
    assert forall|x: int| !is_ready(es, prefix.to_set(), x) by {
        if is_ready(es, prefix.to_set(), x) {
            assert(ready@.contains(x as usize));
        }
    }
    let mut j: usize = 0;
    while j < n
        invariant
            n == es.len(),
            j <= n,
            m <= order@.len(),
            flags_ok(flags@, emitted, n as int),
            emitted == ints(order@).to_set(),
            num_set(flags@) == order@.len(),
            ints(order@).no_duplicates(),
            ints(order@).take(m) == prefix,
            prefix.len() == m,
            forall|x: int| !is_ready(es, prefix.to_set(), x),
            forall|x: int| 0 <= x < j ==> #[trigger] flags@[x],
            forall|k: int| 0 <= k < order@.len() ==> #[trigger] order@[k] < n,
            forall|k: int| m <= k < order@.len() ==> #[trigger] order@[k] < j,
            forall|k1: int, k2: int| m <= k1 < k2 < order@.len() ==> order@[k1] < order@[k2],
        decreases n - j,
    {
        if !flags[j] {
            let ghost old_order = ints(order@);
            let ghost old_emitted_l = emitted;
            proof {
                lemma_num_set_update(flags@, j as int);
            }
            flags.set(j, true);
            order.push(j);
            proof {
                emitted = emitted.insert(j as int);
                assert(ints(order@) =~= old_order.push(j as int));
                old_order.lemma_push_to_set_commute(j as int);
                assert(m <= old_order.len());
                assert(ints(order@).take(m) =~= old_order.take(m));
                assert(!old_order.contains(j as int));
                lemma_push_fresh(old_order, j as int);
            }
        }
        j += 1;
    }
    proof {
        lemma_num_set_all(flags@);
        let o = ints(order@);
        assert forall|x: int| 0 <= x < n implies o.contains(x) by {
            assert(flags@[x]);
            assert(o.to_set().contains(x));
        }
        assert(o.take(m) == prefix);
        assert forall|k: int| 0 <= k < m implies is_best_ready(es, o.take(k).to_set(), #[trigger] o[k]) by {
            assert(o.take(k) =~= prefix.take(k));
            assert(o[k] == prefix[k]);
        }
        assert(kahn_prefix(es, o, m));
    }
    order
}

proof fn lemma_push_fresh<T>(s: Seq<T>, x: T)
    requires
        s.no_duplicates(),
        !s.contains(x),
    ensures
        s.push(x).no_duplicates(),
{
    assert forall|a: int, b: int| 0 <= a < b < s.len() + 1 implies s.push(x)[a] != s.push(x)[b] by {
        if b == s.len() {
            assert(s[a] == s.push(x)[a]);
        }
    }
}

proof fn lemma_num_set_zero(flags: Seq<bool>)
    requires
        forall|j: int| 0 <= j < flags.len() ==> !#[trigger] flags[j],
    ensures
        num_set(flags) == 0,
    decreases flags.len(),
{
    if flags.len() > 0 {
        lemma_num_set_zero(flags.drop_last());
    }
}

proof fn lemma_num_set_all(flags: Seq<bool>)
    requires
        forall|j: int| 0 <= j < flags.len() ==> #[trigger] flags[j],
    ensures
        num_set(flags) == flags.len(),
    decreases flags.len(),
{
    if flags.len() > 0 {
        lemma_num_set_all(flags.drop_last());
    }
}

/// Whether `x` occurs in `v`.
fn contains_position(v: &Vec<usize>, x: usize) -> (r: bool)
    ensures
        r == v@.contains(x),
{
    let mut i: usize = 0;
    while i < v.len()
        invariant
            i <= v@.len(),
            forall|j: int| 0 <= j < i ==> v@[j] != x,
        decreases v@.len() - i,
    {
        if v[i] == x {
            return true;
        }
        i += 1;
    }
    false
}

/// Reorders a batch for the lane layout: children before their parents, the
/// checked-out entry first among the ready ones, then batch order; entries that
/// never become ready (a cycle) follow at the end in batch order.
pub fn reorder_entries_for_graph(entries: Vec<LogEntry>) -> (result: Vec<LogEntry>)
    ensures
        is_sequenced(entries@, result@),
{
    let order = sequence_order(&entries);
    let ghost es = entries@;
    let ghost o = ints(order@);
    let n = entries.len();
    let mut entries = entries;
    // Slot `t` holds the entry at batch position `n - 1 - t` until it is taken.
    let mut slots: Vec<Option<LogEntry>> = Vec::new();
    while entries.len() > 0
        invariant
            entries@.len() + slots@.len() == n,
            n == es.len(),
            entries@ == es.take(n - slots@.len()),
            forall|t: int| 0 <= t < slots@.len() ==> #[trigger] slots@[t] == Some(es[n - 1 - t]),
        decreases entries@.len(),
    {
        let ghost before = entries@;
        let e = entries.pop().unwrap();
        assert(e == es[n - 1 - slots@.len()]);
        slots.push(Some(e));
        assert(entries@ =~= es.take(n - slots@.len()));
    }
    let mut result: Vec<LogEntry> = Vec::new();
    let mut k: usize = 0;
    while k < order.len()
        invariant
            n == es.len(),
            o == ints(order@),
            is_sequence_order(es, o),
            k <= order@.len(),
            slots@.len() == n,
            result@ == permuted(es, o.take(k as int)),
            forall|t: int|
                0 <= t < n && !o.take(k as int).contains(n - 1 - t) ==> #[trigger] slots@[t] == Some(es[n - 1 - t]),
        decreases order@.len() - k,
    {
        let i = order[k];
        assert(o[k as int] == i as int);
        let mut taken: Option<LogEntry> = None;
        let ghost t = n - 1 - i;
        assert(!o.take(k as int).contains(i as int)) by {
            if o.take(k as int).contains(i as int) {
                let c = choose|c: int| 0 <= c < k && o.take(k as int)[c] == i as int;
                assert(o[c] == o[k as int]);
            }
        }
        assert(slots@[t] == Some(es[i as int]));
        slots.set_and_swap(n - 1 - i, &mut taken);
        if let Some(e) = taken {
            result.push(e);
        }
        proof {
            assert(o.take(k + 1) =~= o.take(k as int).push(i as int));
            assert(result@ =~= permuted(es, o.take(k + 1)));
            assert forall|u: int|
                0 <= u < n && !o.take(k + 1).contains(n - 1 - u) implies #[trigger] slots@[u] == Some(es[n - 1 - u]) by {
                vstd::seq_lib::lemma_seq_contains_after_push(o.take(k as int), i as int, n - 1 - u);
            }
        }
        k += 1;
    }
    assert(o.take(o.len() as int) =~= o);
    result
}

/// The bookmark names of a comma-separated field; none for an empty field.
pub open spec fn bookmarks_of(field: Seq<char>) -> Seq<Seq<char>> {
    if field.len() == 0 {
        Seq::empty()
    } else {
        split_on(field, ',')
    }
}

/// The parent identifiers of a comma-separated field, empty names left out.
pub open spec fn parents_of(field: Seq<char>) -> Seq<Seq<char>> {
    if field.len() == 0 {
        Seq::empty()
    } else {
        split_on(field, ',').filter(|p: Seq<char>| p.len() > 0)
    }
}

/// The fields of a log line, separated by NUL characters.
pub open spec fn log_fields(line: Seq<char>) -> Seq<Seq<char>> {
    split_on(line, '\0')
}

/// A log line holds the thirteen fields of an entry.
pub open spec fn is_log_line(line: Seq<char>) -> bool {
    log_fields(line).len() >= 13
}

/// `e` is the entry that the log line `line` describes.
pub open spec fn is_entry_of_line(line: Seq<char>, e: LogEntry) -> bool {
    let f = log_fields(line);
    &&& is_log_line(line)
    &&& e.change_id_prefix@ == f[0]
    &&& e.change_id_rest@ == f[1]
    &&& e.change_id@ == f[0] + f[1]
    &&& e.commit_id_prefix@ == f[2]
    &&& e.commit_id_rest@ == f[3]
    &&& e.commit_id@ == f[2] + f[3]
    &&& e.commit_id_full@ == f[4]
    &&& views(e.parent_commit_ids@) == parents_of(f[5])
    &&& e.author@ == f[6]
    &&& e.timestamp@ == f[7]
    &&& e.description@ == f[8]
    &&& e.is_working_copy == (f[9] == seq!['t', 'r', 'u', 'e'])
    &&& e.is_immutable == (f[10] == seq!['t', 'r', 'u', 'e'])
    &&& e.is_empty == (f[11] == seq!['t', 'r', 'u', 'e'])
    &&& views(e.bookmarks@) == bookmarks_of(f[12])
}

/// The lines of a log output that describe entries.
pub open spec fn log_lines(output: Seq<char>) -> Seq<Seq<char>> {
    lines(output).filter(|l: Seq<char>| is_log_line(l))
}

/// Splits a comma-separated bookmarks field; an empty field has none.
pub fn parse_bookmarks_field(field: &str) -> (r: Vec<String>)
    ensures
        views(r@) == bookmarks_of(field@),
{
    if field.is_empty() {
        Vec::new()
    } else {
        split_str(field, ',')
    }
}

/// Splits a comma-separated parents field, leaving out empty names.
fn parse_parents_field(field: &str) -> (r: Vec<String>)
    ensures
        views(r@) == parents_of(field@),
{
    let mut out: Vec<String> = Vec::new();
    if field.is_empty() {
        return out;
    }
    let pieces = split_str(field, ',');
    let ghost ps = views(pieces@);
    let mut t: usize = 0;
    while t < pieces.len()
        invariant
            t <= pieces@.len(),
            ps == views(pieces@),
            views(out@) == ps.take(t as int).filter(|p: Seq<char>| p.len() > 0),
        decreases pieces@.len() - t,
    {
        let ghost before = out@;
        if !pieces[t].as_str().is_empty() {
            out.push(pieces[t].clone());
        }
        proof {
            reveal(Seq::filter);
            assert(ps.take(t + 1).drop_last() =~= ps.take(t as int));
            assert(ps.take(t + 1).last() == pieces@[t as int]@);
            assert(views(out@) =~= ps.take(t + 1).filter(|p: Seq<char>| p.len() > 0));
        }
        t += 1;
    }
    assert(ps.take(t as int) =~= ps);
    out
}

/// Parses one NUL-separated log line into an entry; `None` when it has fewer
/// than thirteen fields.
pub fn parse_log_line(line: &str) -> (r: Option<LogEntry>)
    ensures
        r is Some <==> is_log_line(line@),
        r matches Some(e) ==> is_entry_of_line(line@, e),
{
    let parts = split_str(line, '\0');
    if parts.len() < 13 {
        return None;
    }
    let ghost f = views(parts@);
    assert(f[0] == parts@[0]@);
    let change_id_prefix = parts[0].clone();
    let change_id_rest = parts[1].clone();
    let commit_id_prefix = parts[2].clone();
    let commit_id_rest = parts[3].clone();
    let mut change_id = parts[0].clone();
    change_id.append(parts[1].as_str());
    let mut commit_id = parts[2].clone();
    commit_id.append(parts[3].as_str());
    let e = LogEntry {
        change_id,
        change_id_prefix,
        change_id_rest,
        commit_id,
        commit_id_prefix,
        commit_id_rest,
        commit_id_full: parts[4].clone(),
        parent_commit_ids: parse_parents_field(parts[5].as_str()),
        author: parts[6].clone(),
        timestamp: parts[7].clone(),
        description: parts[8].clone(),
        is_working_copy: is_true_str(&parts[9]),
        is_immutable: is_true_str(&parts[10]),
        is_empty: is_true_str(&parts[11]),
        bookmarks: parse_bookmarks_field(parts[12].as_str()),
    };
    Some(e)
}

/// Parses every line of a log output that describes an entry, in order.
pub fn parse_log_output(output: &str) -> (r: Vec<LogEntry>)
    ensures
        r@.len() == log_lines(output@).len(),
        forall|k: int| 0 <= k < r@.len() ==> is_entry_of_line(log_lines(output@)[k], #[trigger] r@[k]),
{
    let cs = chars_of(output);
    let rs = line_ranges(&cs);
    let ghost ls = lines(output@);
    let mut out: Vec<LogEntry> = Vec::new();
    let mut t: usize = 0;
    while t < rs.len()
        invariant
            t <= rs@.len(),
            cs@ == output@,
            ranges_ok_lines(cs@, rs@, ls),
            out@.len() == ls.take(t as int).filter(|l: Seq<char>| is_log_line(l)).len(),
            forall|k: int|
                0 <= k < out@.len() ==> is_entry_of_line(
                    ls.take(t as int).filter(|l: Seq<char>| is_log_line(l))[k],
                    #[trigger] out@[k],
                ),
        decreases rs@.len() - t,
    {
        let (a, b) = rs[t];
        assert(rs@[t as int].0 <= rs@[t as int].1 <= cs@.len());
        let line = string_of(&cs, a, b);
        assert(line@ == ls[t as int]);
        let ghost before = out@;
        let parsed = parse_log_line(line.as_str());
        if let Some(e) = parsed {
            out.push(e);
        }
        proof {
            reveal(Seq::filter);
            assert(ls.take(t + 1).drop_last() =~= ls.take(t as int));
            assert(ls.take(t + 1).last() == line@);
        }
        t += 1;
    }
    assert(ls.take(t as int) =~= ls);
    out
}

/// The ranges `rs` delimit the lines `ls` of `cs`.
pub open spec fn ranges_ok_lines(cs: Seq<char>, rs: Seq<(usize, usize)>, ls: Seq<Seq<char>>) -> bool {
    &&& crate::text::ranges_ok(cs, rs)
    &&& crate::text::ranges_view(cs, rs) == ls
}

/// The entries of a log output, in display order for the lane layout.
pub fn entries_from_log_output(output: &str) -> (r: Vec<LogEntry>)
    ensures
        exists|parsed: Seq<LogEntry>|
            {
                &&& parsed.len() == log_lines(output@).len()
                &&& forall|k: int| 0 <= k < parsed.len() ==> is_entry_of_line(log_lines(output@)[k], #[trigger] parsed[k])
                &&& is_sequenced(parsed, r@)
            },
{
    let parsed = parse_log_output(output);
    let ghost p = parsed@;
    let r = reorder_entries_for_graph(parsed);
    assert(forall|k: int| 0 <= k < p.len() ==> is_entry_of_line(log_lines(output@)[k], #[trigger] p[k]));
    r
}

} // verus!
