//! Lane layout of a sequenced batch of log entries.
//!
//! Each entry becomes one row of two-character cells drawn with Unicode line
//! characters. A table of open lanes (identifiers of commits that a row above
//! named as a parent and that have not been drawn yet) is carried from row to
//! row.

use vstd::prelude::*;

use crate::log::{node_glyph, LogEntry};
use crate::text::{string_of, trim_end, trimmed_end_len};

verus! {

/// What a half cell depicts, for styling.
#[derive(Debug, Clone, Copy, PartialEq, Eq, Structural)]
pub enum CellKind {
    /// A lane (graph line) cell.
    Lane { lane: usize },
    /// A node cell (commit symbol).
    Node { is_working_copy: bool, is_immutable: bool },
}

/// One lane column: a left and a right glyph, each with its kind.
#[derive(Debug, Clone, Copy, PartialEq, Eq, Structural)]
pub struct Cell2 {
    pub left: char,
    pub right: char,
    pub kind_left: CellKind,
    pub kind_right: CellKind,
}

impl Cell2 {
    fn lane(lane: usize, left: char, right: char) -> (r: Self)
        ensures
            r == (Cell2 {
                left,
                right,
                kind_left: CellKind::Lane { lane },
                kind_right: CellKind::Lane { lane },
            }),
    {
        Cell2 { left, right, kind_left: CellKind::Lane { lane }, kind_right: CellKind::Lane { lane } }
    }
}

/// One rendered row of the graph.
#[derive(Debug, Clone, PartialEq, Eq)]
pub struct GraphRow {
    /// Graph cells, one per lane.
    pub cells: Vec<Cell2>,
    /// Which lane holds the node symbol of this row.
    pub node_lane: usize,
    /// Number of lanes still open after this row.
    pub active_lane_count: usize,
}

/// The identifiers held by a lane table.
pub open spec fn lane_ids(lanes: Seq<String>) -> Seq<Seq<char>> {
    lanes.map_values(|s: String| s@)
}

/// The integer values of a sequence of indices.
pub open spec fn ints(v: Seq<usize>) -> Seq<int> {
    v.map_values(|x: usize| x as int)
}

/// Whether some entry of the batch has identifier `id`.
pub open spec fn in_batch(entries: Seq<LogEntry>, id: Seq<char>) -> bool {
    exists|i: int| 0 <= i < entries.len() && #[trigger] entries[i].id() == id
}

/// `p` is the leftmost lane holding `id`.
pub open spec fn is_first_lane(lanes: Seq<Seq<char>>, id: Seq<char>, p: int) -> bool {
    &&& 0 <= p < lanes.len()
    &&& lanes[p] == id
    &&& forall|q: int| 0 <= q < p ==> lanes[q] != id
}

/// Some lane holds `id`.
pub open spec fn has_lane(lanes: Seq<Seq<char>>, id: Seq<char>) -> bool {
    exists|p: int| is_first_lane(lanes, id, p)
}

/// The lane of a commit: the leftmost lane that holds it, or a new lane 0.
pub open spec fn node_lane_of(lanes: Seq<Seq<char>>, id: Seq<char>) -> int {
    if has_lane(lanes, id) {
        choose|p: int| is_first_lane(lanes, id, p)
    } else {
        0
    }
}

/// The lane table once the commit has a lane.
pub open spec fn lanes_with_node(lanes: Seq<Seq<char>>, id: Seq<char>) -> Seq<Seq<char>> {
    if has_lane(lanes, id) {
        lanes
    } else {
        seq![id] + lanes
    }
}

/// The test for a parent identifier to be in the batch.
pub open spec fn batch_pred(entries: Seq<LogEntry>) -> spec_fn(Seq<char>) -> bool {
    |p: Seq<char>| in_batch(entries, p)
}

/// The parents of `e` that are in the batch, in order.
pub open spec fn parents_in_batch(entries: Seq<LogEntry>, e: LogEntry) -> Seq<Seq<char>> {
    e.parent_ids().filter(batch_pred(entries))
}

/// Number of lanes opened to the right of the node for merge parents.
pub open spec fn split_count(parents: Seq<Seq<char>>) -> int {
    if parents.len() > 0 {
        parents.len() - 1
    } else {
        0
    }
}

/// The test for lane `i` to be a duplicate of `id` right of `node`.
pub open spec fn dup_pred(lanes: Seq<Seq<char>>, id: Seq<char>, node: int) -> spec_fn(int) -> bool {
    |i: int| i > node && lanes[i] == id
}

/// The first `n` lane positions.
pub open spec fn positions(n: nat) -> Seq<int> {
    Seq::new(n, |i: int| i)
}

/// Lanes right of `node` that also hold `id`, in increasing order.
pub open spec fn dup_lanes(lanes: Seq<Seq<char>>, id: Seq<char>, node: int) -> Seq<int> {
    positions(lanes.len()).filter(dup_pred(lanes, id, node))
}

/// Removes the lanes at `idxs`, last index first; an index past the end is skipped.
pub open spec fn remove_lanes(lanes: Seq<Seq<char>>, idxs: Seq<int>) -> Seq<Seq<char>>
    decreases idxs.len(),
{
    if idxs.len() == 0 {
        lanes
    } else {
        let i = idxs.last();
        let rest = if 0 <= i < lanes.len() {
            lanes.remove(i)
        } else {
            lanes
        };
        remove_lanes(rest, idxs.drop_last())
    }
}

/// The node lane of `e` on a table `lanes`.
pub open spec fn step_node(lanes: Seq<Seq<char>>, e: LogEntry) -> int {
    node_lane_of(lanes, e.id())
}

/// Lanes that exist when the row is drawn (they get a vertical line).
pub open spec fn step_render(lanes: Seq<Seq<char>>, e: LogEntry) -> int {
    lanes_with_node(lanes, e.id()).len() as int
}

/// Merge-parent lanes opened by `e`.
pub open spec fn step_split(entries: Seq<LogEntry>, e: LogEntry) -> int {
    split_count(parents_in_batch(entries, e))
}

/// Lanes converging into `e`, as positions after the table was updated for its parents.
pub open spec fn step_converge(entries: Seq<LogEntry>, lanes: Seq<Seq<char>>, e: LogEntry) -> Seq<int> {
    let split = step_split(entries, e);
    dup_lanes(lanes_with_node(lanes, e.id()), e.id(), step_node(lanes, e)).map_values(
        |i: int| i + split,
    )
}

/// The table after the node lane is replaced by the in-batch parents of `e`
/// (main line in place, merge parents right of it; no parent closes the lane).
pub open spec fn step_parent_lanes(entries: Seq<LogEntry>, lanes: Seq<Seq<char>>, e: LogEntry) -> Seq<
    Seq<char>,
> {
    let l1 = lanes_with_node(lanes, e.id());
    let node = step_node(lanes, e);
    l1.take(node) + parents_in_batch(entries, e) + l1.skip(node + 1)
}

/// The lane table after `e` has been drawn.
pub open spec fn step_lanes(entries: Seq<LogEntry>, lanes: Seq<Seq<char>>, e: LogEntry) -> Seq<
    Seq<char>,
> {
    remove_lanes(step_parent_lanes(entries, lanes, e), step_converge(entries, lanes, e))
}

/// The lane table before the entry at `k` is drawn.
pub open spec fn lanes_before(entries: Seq<LogEntry>, k: int) -> Seq<Seq<char>>
    decreases k,
{
    if k <= 0 || k > entries.len() {
        Seq::empty()
    } else {
        step_lanes(entries, lanes_before(entries, k - 1), entries[k - 1])
    }
}

/// The furthest lane that a horizontal connector reaches.
pub open spec fn far_end(node: int, split: int, conv: Seq<int>) -> int {
    if conv.len() > 0 && conv.last() > node + split {
        conv.last()
    } else {
        node + split
    }
}

/// Number of columns of a row.
pub open spec fn column_count(active: int, node: int, split: int, conv: Seq<int>) -> int {
    let a = if active > node + 1 {
        active
    } else {
        node + 1
    };
    let b = if split > 0 && node + split + 1 > a {
        node + split + 1
    } else {
        a
    };
    if conv.len() > 0 && conv.last() + 1 > b {
        conv.last() + 1
    } else {
        b
    }
}

/// The cell at column `l` of the row of `e`.
pub open spec fn cell_at(
    e: LogEntry,
    node: int,
    render: int,
    split: int,
    conv: Seq<int>,
    l: int,
) -> Cell2 {
    let has_right = split > 0 || conv.len() > 0;
    let target = far_end(node, split, conv);
    let left = if l == node {
        node_glyph(e.is_working_copy, e.is_immutable)
    } else if conv.contains(l) {
        '┘'
    } else if node < l <= node + split {
        '┐'
    } else if has_right && node < l <= target {
        if l < render {
            '┼'
        } else {
            '─'
        }
    } else if l < render {
        '│'
    } else {
        ' '
    };
    let right = if has_right && node <= l < target {
        '─'
    } else {
        ' '
    };
    Cell2 {
        left,
        right,
        kind_left: if l == node {
            CellKind::Node { is_working_copy: e.is_working_copy, is_immutable: e.is_immutable }
        } else {
            CellKind::Lane { lane: l as usize }
        },
        kind_right: CellKind::Lane { lane: l as usize },
    }
}

/// `row` is the row drawn for `e` on the table `lanes`.
pub open spec fn is_step_row(
    entries: Seq<LogEntry>,
    lanes: Seq<Seq<char>>,
    e: LogEntry,
    row: GraphRow,
) -> bool {
    let node = step_node(lanes, e);
    let render = step_render(lanes, e);
    let split = step_split(entries, e);
    let conv = step_converge(entries, lanes, e);
    let active = step_lanes(entries, lanes, e).len() as int;
    &&& row.node_lane == node
    &&& row.active_lane_count == active
    &&& row.cells@.len() == column_count(active, node, split, conv)
    &&& forall|l: int|
        0 <= l < row.cells@.len() ==> #[trigger] row.cells@[l] == cell_at(
            e,
            node,
            render,
            split,
            conv,
            l,
        )
}

/// `row` is the row of the entry at `k` in the layout of `entries`.
pub open spec fn is_layout_row(entries: Seq<LogEntry>, k: int, row: GraphRow) -> bool {
    is_step_row(entries, lanes_before(entries, k), entries[k], row)
}

/// Whether some entry has the identifier held by `id`.
fn id_in_batch(entries: &[LogEntry], id: &String) -> (r: bool)
    ensures
        r == in_batch(entries@, id@),
{
    let mut i: usize = 0;
    while i < entries.len()
        invariant
            i <= entries@.len(),
            forall|j: int| 0 <= j < i ==> entries@[j].id() != id@,
        decreases entries@.len() - i,
    {
        if entries[i].commit_id_full == *id {
            assert(entries@[i as int].id() == id@);
            return true;
        }
        i += 1;
    }
    false
}

/// Whether `x` occurs in `v`.
fn contains_index(v: &Vec<usize>, x: usize) -> (r: bool)
    ensures
        r == ints(v@).contains(x as int),
{
    let mut i: usize = 0;
    while i < v.len()
        invariant
            i <= v@.len(),
            forall|j: int| 0 <= j < i ==> v@[j] != x,
        decreases v@.len() - i,
    {
        if v[i] == x {
            assert(ints(v@)[i as int] == x as int);
            return true;
        }
        i += 1;
    }
    false
}

/// Leftmost lane that holds `id`.
fn find_lane(lanes: &Vec<String>, id: &String) -> (r: Option<usize>)
    ensures
        r matches Some(p) ==> is_first_lane(lane_ids(lanes@), id@, p as int),
        r is None ==> !has_lane(lane_ids(lanes@), id@),
{
    let mut i: usize = 0;
    while i < lanes.len()
        invariant
            i <= lanes@.len(),
            forall|q: int| 0 <= q < i ==> lane_ids(lanes@)[q] != id@,
        decreases lanes@.len() - i,
    {
        if lanes[i] == *id {
            return Some(i);
        }
        i += 1;
    }
    None
}

/// Draws the row of `entry` on the lane table `lanes` and updates the table.
fn layout_step(entries: &[LogEntry], lanes: &mut Vec<String>, entry: &LogEntry) -> (row: GraphRow)
    ensures
        lane_ids(final(lanes)@) == step_lanes(entries@, lane_ids(old(lanes)@), *entry),
        is_step_row(entries@, lane_ids(old(lanes)@), *entry, row),
{
    let ghost l0 = lane_ids(lanes@);
    let ghost id = entry.id();
    // Locate or open the lane of this commit.
    let node_lane: usize = match find_lane(lanes, &entry.commit_id_full) {
        Some(p) => {
            proof {
                let q = choose|q: int| is_first_lane(l0, id, q);
                assert(is_first_lane(l0, id, q));
                assert(q == p as int);
            }
            p
        },
        None => {
            lanes.insert(0, entry.commit_id_full.clone());
            assert(lane_ids(lanes@) =~= seq![id] + l0);
            0
        },
    };
    let ghost l1 = lane_ids(lanes@);
    assert(l1 == lanes_with_node(l0, id));
    assert(node_lane as int == step_node(l0, *entry));
    let render: usize = lanes.len();

    // Lanes right of the node that wait for the same commit.
    let mut dups: Vec<usize> = Vec::new();
    let mut i: usize = 0;
    while i < lanes.len()
        invariant
            i <= lanes@.len(),
            lane_ids(lanes@) == l1,
            node_lane < l1.len(),
            id == entry.id(),
            ints(dups@) == positions(i as nat).filter(dup_pred(l1, id, node_lane as int)),
            forall|j: int| 0 <= j < dups@.len() ==> node_lane < #[trigger] dups@[j] < i,
        decreases lanes@.len() - i,
    {
        let ghost before = dups@;
        if i > node_lane && lanes[i] == entry.commit_id_full {
            dups.push(i);
        }
        proof {
            reveal(Seq::filter);
            assert(positions((i + 1) as nat).drop_last() =~= positions(i as nat));
            assert(positions((i + 1) as nat).last() == i as int);
            assert(lane_ids(lanes@)[i as int] == lanes@[i as int]@);
            assert(ints(dups@) =~= positions((i + 1) as nat).filter(dup_pred(l1, id, node_lane as int)));
        }
        i += 1;
    }
    assert(ints(dups@) == dup_lanes(l1, id, node_lane as int));

    // Parents present in this batch, in order.
    let mut parents: Vec<String> = Vec::new();
    let mut j: usize = 0;
    while j < entry.parent_commit_ids.len()
        invariant
            j <= entry.parent_ids().len(),
            lane_ids(parents@) == entry.parent_ids().take(j as int).filter(batch_pred(entries@)),
        decreases entry.parent_ids().len() - j,
    {
        let p = &entry.parent_commit_ids[j];
        if id_in_batch(entries, p) {
            parents.push(p.clone());
        }
        proof {
            reveal(Seq::filter);
            assert(entry.parent_ids().take(j + 1).drop_last() =~= entry.parent_ids().take(j as int));
            assert(entry.parent_ids().take(j + 1).last() == p@);
            assert(lane_ids(parents@) =~= entry.parent_ids().take(j + 1).filter(batch_pred(entries@)));
        }
        j += 1;
    }
    assert(entry.parent_ids().take(j as int) =~= entry.parent_ids());
    let ghost ps = lane_ids(parents@);
    assert(ps == parents_in_batch(entries@, *entry));

    // Main line continues in place; merge parents open lanes right of it.
    let split: usize = if parents.len() > 0 {
        parents.len() - 1
    } else {
        0
    };
    if parents.len() > 0 {
        lanes.set(node_lane, parents[0].clone());
        assert(lane_ids(lanes@) =~= l1.take(node_lane as int) + ps.take(1) + l1.skip(node_lane + 1));
        let mut k: usize = 1;
        while k < parents.len()
            invariant
                1 <= k <= parents@.len(),
                node_lane < l1.len(),
                ps == lane_ids(parents@),
                ps.len() == parents@.len(),
                lane_ids(lanes@) == l1.take(node_lane as int) + ps.take(k as int) + l1.skip(
                    node_lane + 1,
                ),
            decreases parents@.len() - k,
        {
            let ghost before = lane_ids(lanes@);
            let n_now = lanes.len();
            assert(before.len() == node_lane + k + (l1.len() - node_lane - 1));
            assert(n_now >= node_lane + k);
            lanes.insert(node_lane + k, parents[k].clone());
            assert(lane_ids(lanes@) =~= before.insert(node_lane + k, ps[k as int]));
            assert(lane_ids(lanes@) =~= l1.take(node_lane as int) + ps.take(k + 1) + l1.skip(
                node_lane + 1,
            ));
            k += 1;
        }
        assert(ps.take(k as int) =~= ps);
    } else {
        lanes.remove(node_lane);
        assert(lane_ids(lanes@) =~= l1.take(node_lane as int) + ps + l1.skip(node_lane + 1));
    }
    let ghost l2 = lane_ids(lanes@);
    assert(l2 == step_parent_lanes(entries@, l0, *entry));
    let len2 = lanes.len();
    assert(split > 0 ==> len2 == l1.len() + split);

    // Converging lanes, shifted past the lanes just opened.
    let mut conv: Vec<usize> = Vec::new();
    let mut c: usize = 0;
    while c < dups.len()
        invariant
            c <= dups@.len(),
            split > 0 ==> len2 == l1.len() + split,
            forall|j: int| 0 <= j < dups@.len() ==> node_lane < #[trigger] dups@[j] < l1.len(),
            conv@.len() == c,
            forall|j: int| 0 <= j < c ==> #[trigger] conv@[j] == dups@[j] + split,
        decreases dups@.len() - c,
    {
        conv.push(dups[c] + split);
        c += 1;
    }
    assert(ints(conv@) =~= step_converge(entries@, l0, *entry));
    let ghost cv = ints(conv@);
    assert(cv.take(cv.len() as int) =~= cv);

    // Remove converged lanes, right to left.
    let mut r: usize = conv.len();
    while r > 0
        invariant
            r <= conv@.len(),
            cv == ints(conv@),
            remove_lanes(lane_ids(lanes@), cv.take(r as int)) == remove_lanes(l2, cv),
        decreases r,
    {
        r -= 1;
        let ghost cur = lane_ids(lanes@);
        let idx = conv[r];
        assert(cv.take(r + 1).drop_last() =~= cv.take(r as int));
        assert(cv.take(r + 1).last() == idx as int);
        if idx < lanes.len() {
            lanes.remove(idx);
            assert(lane_ids(lanes@) =~= cur.remove(idx as int));
        }
    }
    assert(cv.take(0) =~= Seq::<int>::empty());
    let active: usize = lanes.len();

    // Column count and the furthest connector.
    let mut lane_count: usize = if active > node_lane + 1 {
        active
    } else {
        node_lane + 1
    };
    if split > 0 && node_lane + split + 1 > lane_count {
        lane_count = node_lane + split + 1;
    }
    let has_conv = conv.len() > 0;
    let last_conv: usize = if has_conv {
        conv[conv.len() - 1]
    } else {
        0
    };
    if has_conv && last_conv + 1 > lane_count {
        lane_count = last_conv + 1;
    }
    let target: usize = if has_conv && last_conv > node_lane + split {
        last_conv
    } else {
        node_lane + split
    };
    let has_right = split > 0 || has_conv;
    let node_char = entry.node_char();

    let mut cells: Vec<Cell2> = Vec::new();
    let mut l: usize = 0;
    while l < lane_count
        invariant
            l <= lane_count,
            cells@.len() == l,
            cv == ints(conv@),
            target as int == far_end(node_lane as int, split as int, cv),
            has_right == (split > 0 || cv.len() > 0),
            node_char == node_glyph(entry.is_working_copy, entry.is_immutable),
            forall|m: int|
                0 <= m < l ==> #[trigger] cells@[m] == cell_at(
                    *entry,
                    node_lane as int,
                    render as int,
                    split as int,
                    cv,
                    m,
                ),
        decreases lane_count - l,
    {
        let in_conv = contains_index(&conv, l);
        let left = if l == node_lane {
            node_char
        } else if in_conv {
            '┘'
        } else if node_lane < l && l <= node_lane + split {
            '┐'
        } else if has_right && node_lane < l && l <= target {
            if l < render {
                '┼'
            } else {
                '─'
            }
        } else if l < render {
            '│'
        } else {
            ' '
        };
        let right = if has_right && node_lane <= l && l < target {
            '─'
        } else {
            ' '
        };
        let mut cell = Cell2::lane(l, left, right);
        if l == node_lane {
            cell.kind_left =
            CellKind::Node { is_working_copy: entry.is_working_copy, is_immutable: entry.is_immutable };
        }
        cells.push(cell);
        l += 1;
    }
    GraphRow { cells, node_lane, active_lane_count: active }
}

/// `rows` is the layout of `entries`: one row per entry, in order.
pub open spec fn is_layout(entries: Seq<LogEntry>, rows: Seq<GraphRow>) -> bool {
    &&& rows.len() == entries.len()
    &&& forall|k: int| 0 <= k < entries.len() ==> #[trigger] is_layout_row(entries, k, rows[k])
}

/// Builds the graph rows, one per entry, in order.
pub fn build_graph_rows(entries: &[LogEntry]) -> (rows: Vec<GraphRow>)
    ensures
        is_layout(entries@, rows@),
{
    let mut active_lanes: Vec<String> = Vec::new();
    let mut rows: Vec<GraphRow> = Vec::new();
    let mut k: usize = 0;
    assert(lane_ids(active_lanes@) =~= lanes_before(entries@, 0));
    while k < entries.len()
        invariant
            k <= entries@.len(),
            rows@.len() == k,
            lane_ids(active_lanes@) == lanes_before(entries@, k as int),
            forall|j: int| 0 <= j < k ==> #[trigger] is_layout_row(entries@, j, rows@[j]),
        decreases entries@.len() - k,
    {
        let row = layout_step(entries, &mut active_lanes, &entries[k]);
        rows.push(row);
        k += 1;
    }
    rows
}

/// The glyphs of a row, left then right half of each cell.
pub open spec fn cells_text(cells: Seq<Cell2>) -> Seq<char>
    decreases cells.len(),
{
    if cells.len() == 0 {
        Seq::empty()
    } else {
        cells_text(cells.drop_last()) + seq![cells.last().left, cells.last().right]
    }
}

/// A row as plain text, trailing blanks removed.
pub fn render_graph_row_plain(row: &GraphRow) -> (r: String)
    ensures
        r@ == trim_end(cells_text(row.cells@)),
{
    let mut cs: Vec<char> = Vec::new();
    let mut i: usize = 0;
    while i < row.cells.len()
        invariant
            i <= row.cells@.len(),
            cs@ == cells_text(row.cells@.take(i as int)),
        decreases row.cells@.len() - i,
    {
        let c = row.cells[i];
        cs.push(c.left);
        cs.push(c.right);
        assert(row.cells@.take(i + 1).drop_last() =~= row.cells@.take(i as int));
        assert(cs@ =~= cells_text(row.cells@.take(i + 1)));
        i += 1;
    }
    assert(row.cells@.take(i as int) =~= row.cells@);
    let k = trimmed_end_len(&cs, cs.len());
    assert(cs@.subrange(0, cs@.len() as int) =~= cs@);
    string_of(&cs, 0, k)
}

} // verus!
