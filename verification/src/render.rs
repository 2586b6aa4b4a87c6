//! Turn an emulated screen into protocol events.
//!
//! The neutral types here ([`RowCell`], [`Screen`], [`Snapshot`]) are the
//! boundary that keeps the emulator crate out of the rest of the library: the
//! emulator boundary fills them, and the [`Renderer`] diffs successive snapshots
//! into the event stream, interning highlights as it goes.

use vstd::prelude::*;

use crate::hlcache::{
    cache_wf, extends, id_of, intern_all, interned, lemma_id_of_extends, lemma_intern_all,
    lemma_new_definitions_step, new_definitions, HlCache,
};
use crate::protocol::{
    append_events, cell_lines_view, default_attrs, events_view, lemma_events_empty, push_event, span_of, Attrs, Cell, CellV, CursorShape, Event, EventV,
};

verus! {

/// One logical cell as produced by the emulator: a single grapheme cluster, its
/// highlight attributes, and the number of terminal columns it occupies (1 or 2).
#[derive(Debug, PartialEq, Eq)]
pub struct RowCell {
    pub text: String,
    pub attrs: Attrs,
    pub width: u8,
}

/// The mathematical value of a [`RowCell`].
pub struct RowCellV {
    pub text: Seq<char>,
    pub attrs: Attrs,
    pub width: u8,
}

impl View for RowCell {
    type V = RowCellV;

    open spec fn view(&self) -> RowCellV {
        RowCellV { text: self.text@, attrs: self.attrs, width: self.width }
    }
}

/// The value of one emulated row.
pub open spec fn row_view(row: Seq<RowCell>) -> Seq<RowCellV> {
    row.map_values(|c: RowCell| c@)
}

/// The values of a sequence of rows.
pub open spec fn lines_view(lines: Seq<Vec<RowCell>>) -> Seq<Seq<RowCellV>> {
    lines.map_values(|l: Vec<RowCell>| row_view(l@))
}

impl Clone for RowCell {
    fn clone(&self) -> (copy: Self)
        ensures
            copy@ == self@,
    {
        RowCell { text: self.text.clone(), attrs: self.attrs, width: self.width }
    }
}

impl RowCell {
    /// A single-width cell with default attributes.
    pub fn narrow(text: &str) -> (cell: Self)
        ensures
            cell@ == (RowCellV { text: text@, attrs: default_attrs(), width: 1 }),
    {
        RowCell { text: String::from_str(text), attrs: Attrs::default(), width: 1 }
    }

    /// A double-width cell with default attributes.
    pub fn wide(text: &str) -> (cell: Self)
        ensures
            cell@ == (RowCellV { text: text@, attrs: default_attrs(), width: 2 }),
    {
        RowCell { text: String::from_str(text), attrs: Attrs::default(), width: 2 }
    }

    /// Set the highlight attributes (builder style).
    pub fn with_attrs(self, attrs: Attrs) -> (cell: Self)
        ensures
            cell@ == (RowCellV { attrs, ..self@ }),
    {
        let mut cell = self;
        cell.attrs = attrs;
        cell
    }
}

/// Whether two rows hold the same cells.
fn rows_equal(a: &Vec<RowCell>, b: &Vec<RowCell>) -> (same: bool)
    ensures
        same == (row_view(a@) == row_view(b@)),
{
    if a.len() != b.len() {
        proof {
            assert(row_view(a@).len() != row_view(b@).len());
        }
        return false;
    }
    let n = a.len();
    let mut i: usize = 0;
    while i < n
        invariant
            n == a@.len(),
            n == b@.len(),
            i <= n,
            forall|j: int| 0 <= j < i ==> a@[j]@ == b@[j]@,
        decreases n - i,
    {
        let x = &a[i];
        let y = &b[i];
        if !(x.width == y.width && x.attrs == y.attrs && x.text == y.text) {
            proof {
                assert(row_view(a@)[i as int] != row_view(b@)[i as int]);
            }
            return false;
        }
        i = i + 1;
    }
    proof {
        assert(row_view(a@) =~= row_view(b@));
    }
    true
}

/// A copy of a row.
fn clone_row(row: &Vec<RowCell>) -> (copy: Vec<RowCell>)
    ensures
        row_view(copy@) == row_view(row@),
{
    let mut copy: Vec<RowCell> = Vec::new();
    let n = row.len();
    let mut i: usize = 0;
    while i < n
        invariant
            n == row@.len(),
            i <= n,
            copy@.len() == i,
            forall|j: int| 0 <= j < i ==> copy@[j]@ == row@[j]@,
        decreases n - i,
    {
        copy.push(row[i].clone());
        i = i + 1;
    }
    proof {
        assert(row_view(copy@) =~= row_view(row@));
    }
    copy
}

/// A copy of a sequence of rows.
fn clone_lines(lines: &Vec<Vec<RowCell>>) -> (copy: Vec<Vec<RowCell>>)
    ensures
        lines_view(copy@) == lines_view(lines@),
{
    let mut copy: Vec<Vec<RowCell>> = Vec::new();
    let n = lines.len();
    let mut i: usize = 0;
    while i < n
        invariant
            n == lines@.len(),
            i <= n,
            copy@.len() == i,
            forall|j: int| 0 <= j < i ==> row_view(copy@[j]@) == row_view(lines@[j]@),
        decreases n - i,
    {
        copy.push(clone_row(&lines[i]));
        i = i + 1;
    }
    proof {
        assert(lines_view(copy@) =~= lines_view(lines@));
    }
    copy
}

/// A full emulated screen: `rows` lines of logical cells.
#[derive(Debug, PartialEq, Eq)]
pub struct Screen {
    pub cols: u16,
    pub rows: u16,
    pub lines: Vec<Vec<RowCell>>,
}

/// The mathematical value of a [`Screen`].
pub struct ScreenV {
    pub cols: u16,
    pub rows: u16,
    pub lines: Seq<Seq<RowCellV>>,
}

impl View for Screen {
    type V = ScreenV;

    open spec fn view(&self) -> ScreenV {
        ScreenV { cols: self.cols, rows: self.rows, lines: lines_view(self.lines@) }
    }
}

impl Clone for Screen {
    fn clone(&self) -> (copy: Self)
        ensures
            copy@ == self@,
    {
        Screen { cols: self.cols, rows: self.rows, lines: clone_lines(&self.lines) }
    }
}

/// Number of rows `r < m` whose current line equals the previous line `r + k`.
pub open spec fn matches_upto(prev: Seq<Seq<RowCellV>>, cur: Seq<Seq<RowCellV>>, k: int, m: int) -> int
    decreases m,
{
    if m <= 0 {
        0
    } else {
        matches_upto(prev, cur, k, m - 1) + if cur[m - 1] == prev[m - 1 + k] {
            1int
        } else {
            0int
        }
    }
}

/// How many current rows the previous screen, shifted up by `k`, explains.
pub open spec fn shift_matches(prev: Seq<Seq<RowCellV>>, cur: Seq<Seq<RowCellV>>, k: int) -> int {
    matches_upto(prev, cur, k, cur.len() - k)
}

/// `k` is the smallest upward shift that explains the most rows.
pub open spec fn is_best_shift(prev: Seq<Seq<RowCellV>>, cur: Seq<Seq<RowCellV>>, k: int) -> bool {
    &&& 1 <= k < cur.len()
    &&& forall|j: int| 1 <= j < cur.len() ==> shift_matches(prev, cur, j) <= shift_matches(prev, cur, k)
    &&& forall|j: int| 1 <= j < k ==> shift_matches(prev, cur, j) < shift_matches(prev, cur, k)
}

/// Scrolling by `k` is worth committing: it explains more rows than staying
/// put, and at least half of them.
pub open spec fn shift_commits(prev: Seq<Seq<RowCellV>>, cur: Seq<Seq<RowCellV>>, k: int) -> bool {
    &&& shift_matches(prev, cur, k) > shift_matches(prev, cur, 0)
    &&& 2 * shift_matches(prev, cur, k) >= cur.len()
}

/// The full-screen upward scroll detected between two screens: the best shift,
/// when it is worth committing; none for identical screens, for screens of
/// different heights, or for screens of fewer than two rows.
pub open spec fn scroll_shift(prev: Seq<Seq<RowCellV>>, cur: Seq<Seq<RowCellV>>) -> Option<u16> {
    if cur.len() < 2 || prev.len() != cur.len() || cur == prev {
        None
    } else if exists|k: int| is_best_shift(prev, cur, k) && shift_commits(prev, cur, k) {
        Some((choose|k: int| is_best_shift(prev, cur, k) && shift_commits(prev, cur, k)) as u16)
    } else {
        None
    }
}

proof fn lemma_matches_bounds(prev: Seq<Seq<RowCellV>>, cur: Seq<Seq<RowCellV>>, k: int, m: int)
    ensures
        0 <= matches_upto(prev, cur, k, m),
        m >= 0 ==> matches_upto(prev, cur, k, m) <= m,
    decreases m,
{
    if m > 0 {
        lemma_matches_bounds(prev, cur, k, m - 1);
    }
}

proof fn lemma_best_shift_unique(prev: Seq<Seq<RowCellV>>, cur: Seq<Seq<RowCellV>>, a: int, b: int)
    requires
        is_best_shift(prev, cur, a),
        is_best_shift(prev, cur, b),
    ensures
        a == b,
{
    if a < b {
        assert(shift_matches(prev, cur, a) < shift_matches(prev, cur, b));
        assert(shift_matches(prev, cur, b) <= shift_matches(prev, cur, a));
    } else if b < a {
        assert(shift_matches(prev, cur, b) < shift_matches(prev, cur, a));
        assert(shift_matches(prev, cur, a) <= shift_matches(prev, cur, b));
    }
}

/// Count the rows `r < m` with `cur[r] == prev[r + k]`.
fn count_matches(prev: &Vec<Vec<RowCell>>, cur: &Vec<Vec<RowCell>>, k: usize, m: usize) -> (count:
    usize)
    requires
        m + k <= prev@.len(),
        m <= cur@.len(),
    ensures
        count == matches_upto(lines_view(prev@), lines_view(cur@), k as int, m as int),
{
    let ghost p = lines_view(prev@);
    let ghost c = lines_view(cur@);
    let plen = prev.len();
    let mut count: usize = 0;
    let mut r: usize = 0;
    while r < m
        invariant
            plen == prev@.len(),
            m + k <= plen,
            m <= cur@.len(),
            p == lines_view(prev@),
            c == lines_view(cur@),
            r <= m,
            count == matches_upto(p, c, k as int, r as int),
        decreases m - r,
    {
        proof {
            lemma_matches_bounds(p, c, k as int, r as int);
        }
        if rows_equal(&cur[r], &prev[r + k]) {
            count = count + 1;
        }
        r = r + 1;
    }
    count
}

/// Detect a full-screen upward scroll: the shift `k` for which the most current
/// rows equal the previous screen shifted up by `k` lines. The baseline diff
/// re-emits whatever does not match, so any `k` is correct; this picks the best
/// and only commits when a scroll beats staying put and spares at least half
/// the rows (blank rows match any shift, so an in-place edit on a mostly blank
/// screen must not read as a scroll).
fn detect_scroll_up(prev: &Screen, cur: &Screen) -> (shift: Option<u16>)
    ensures
        shift == scroll_shift(prev@.lines, cur@.lines),
{
    let ghost p = prev@.lines;
    let ghost c = cur@.lines;
    let n = cur.lines.len();
    if n < 2 || prev.lines.len() != n {
        return None;
    }
    let mut same = true;
    let mut r: usize = 0;
    while r < n
        invariant
            n == cur.lines@.len(),
            n == prev.lines@.len(),
            p == prev@.lines,
            c == cur@.lines,
            r <= n,
            same == (forall|j: int| 0 <= j < r ==> c[j] == p[j]),
        decreases n - r,
    {
        let eq = rows_equal(&cur.lines[r], &prev.lines[r]);
        proof {
            assert(c[r as int] == row_view(cur.lines@[r as int]@));
            assert(p[r as int] == row_view(prev.lines@[r as int]@));
        }
        if !eq {
            same = false;
        }
        r = r + 1;
    }
    if same {
        proof {
            assert(c =~= p);
        }
        return None;
    }
    let mut best_k: usize = 0;
    let mut best_matches: usize = 0;
    let mut k: usize = 1;
    while k < n
        invariant
            n == cur.lines@.len(),
            n == prev.lines@.len(),
            p == prev@.lines,
            c == cur@.lines,
            c.len() == n,
            1 <= k <= n,
            forall|j: int| 1 <= j < k ==> shift_matches(p, c, j) <= best_matches,
            best_k == 0 ==> best_matches == 0,
            best_k != 0 ==> {
                &&& 1 <= best_k < k
                &&& shift_matches(p, c, best_k as int) == best_matches
                &&& forall|j: int| 1 <= j < best_k ==> shift_matches(p, c, j) < best_matches
            },
        decreases n - k,
    {
        let matches = count_matches(&prev.lines, &cur.lines, k, n - k);
        if matches > best_matches {
            best_matches = matches;
            best_k = k;
        }
        k = k + 1;
    }
    let identity = count_matches(&prev.lines, &cur.lines, 0, n);
    proof {
        lemma_matches_bounds(p, c, 0, n as int);
        lemma_matches_bounds(p, c, best_k as int, n - best_k);
    }
    if best_k > 0 && best_matches > identity && best_matches >= n - best_matches {
        proof {
            assert(is_best_shift(p, c, best_k as int) && shift_commits(p, c, best_k as int));
            let w = choose|k: int| is_best_shift(p, c, k) && shift_commits(p, c, k);
            lemma_best_shift_unique(p, c, w, best_k as int);
        }
        Some(#[verifier::truncate] (best_k as u16))
    } else {
        proof {
            assert forall|k: int| is_best_shift(p, c, k) implies !shift_commits(p, c, k) by {
                if best_k == 0 {
                    lemma_matches_bounds(p, c, 0, n as int);
                } else {
                    assert(is_best_shift(p, c, best_k as int));
                    lemma_best_shift_unique(p, c, k, best_k as int);
                }
            }
        }
        None
    }
}

/// The previous-screen row the host holds at `row` when diffing: after an
/// upward scroll by `k` the host's rows are the previous ones shifted up by
/// `k`, and the bottom `k` rows keep their stale content (the protocol does not
/// clear the vacated region).
pub open spec fn baseline(prev: Seq<Seq<RowCellV>>, row: int, scroll: Option<u16>) -> Option<
    Seq<RowCellV>,
> {
    if scroll is Some && 0 <= row && row + scroll->0 < prev.len() {
        Some(prev[row + scroll->0])
    } else if 0 <= row < prev.len() {
        Some(prev[row])
    } else {
        None
    }
}

/// The previous-screen row the host holds at `row` when diffing.
fn baseline_row(prev: &Screen, row: usize, scroll: Option<u16>) -> (line: Option<&Vec<RowCell>>)
    ensures
        match line {
            Some(l) => baseline(prev@.lines, row as int, scroll) == Some(row_view(l@)),
            None => baseline(prev@.lines, row as int, scroll) is None,
        },
{
    let n = prev.lines.len();
    match scroll {
        Some(k) => {
            if row < n && (k as usize) < n - row {
                return Some(&prev.lines[row + k as usize]);
            }
        },
        None => {},
    }
    if row < n {
        Some(&prev.lines[row])
    } else {
        None
    }
}

/// A wire column before compression: a grapheme and its highlight id.
pub type Column = (Seq<char>, u32);

/// The values of a sequence of `(text, hl_id)` columns.
pub open spec fn columns_view(columns: Seq<(String, u32)>) -> Seq<Column> {
    columns.map_values(|c: (String, u32)| (c.0@, c.1))
}

/// Length of the run of columns equal to `columns[i]` that starts at `i`.
pub open spec fn run_len(columns: Seq<Column>, i: int) -> int
    decreases columns.len() - i,
{
    if 0 <= i && i + 1 < columns.len() && columns[i + 1] == columns[i] {
        1 + run_len(columns, i + 1)
    } else {
        1
    }
}

/// The wire cells encoding `columns[i..]`, given the highlight id of the cell
/// just before: each maximal run of equal columns becomes one cell; a run
/// longer than one carries its id and length, a lone column inherits the id
/// when it equals the previous one and names it otherwise.
pub open spec fn compressed(columns: Seq<Column>, i: int, prev_hl: Option<u32>) -> Seq<CellV>
    decreases columns.len() - i,
{
    if i < 0 || i >= columns.len() {
        seq![]
    } else {
        let run = run_len(columns, i);
        proof {
            lemma_run_len_bounds(columns, i);
        }
        let (text, hl) = columns[i];
        let cell = if run > 1 {
            CellV { text, hl_id: Some(hl), repeat: Some(run as u32) }
        } else if prev_hl == Some(hl) {
            CellV { text, hl_id: None, repeat: None }
        } else {
            CellV { text, hl_id: Some(hl), repeat: None }
        };
        seq![cell] + compressed(columns, i + run, Some(hl))
    }
}

/// The run-length encoding of a whole row of columns.
pub open spec fn compress_spec(columns: Seq<Column>) -> Seq<CellV> {
    compressed(columns, 0, None)
}

/// A run covers at least its first column, stays within the row, holds only
/// copies of that column, and is followed by a different column or the end.
pub proof fn lemma_run_len_bounds(columns: Seq<Column>, i: int)
    requires
        0 <= i < columns.len(),
    ensures
        1 <= run_len(columns, i) <= columns.len() - i,
        forall|j: int| i <= j < i + run_len(columns, i) ==> columns[j] == columns[i],
        i + run_len(columns, i) < columns.len() ==> columns[i + run_len(columns, i)] != columns[i],
    decreases columns.len() - i,
{
    if i + 1 < columns.len() && columns[i + 1] == columns[i] {
        lemma_run_len_bounds(columns, i + 1);
    }
}

/// A run that stops where the columns stop being equal is the maximal run.
proof fn lemma_run_len_is(columns: Seq<Column>, i: int, r: int)
    requires
        0 <= i,
        1 <= r,
        i + r <= columns.len(),
        forall|j: int| i <= j < i + r ==> columns[j] == columns[i],
        i + r == columns.len() || columns[i + r] != columns[i],
    ensures
        run_len(columns, i) == r,
    decreases r,
{
    if r > 1 {
        lemma_run_len_is(columns, i + 1, r - 1);
    }
}

/// Run-length compress columns `(text, hl_id)` into wire cells, emitting the
/// shortest cell shape (inherit when the highlight matches the previous cell).
pub fn compress(columns: &Vec<(String, u32)>) -> (cells: Vec<Cell>)
    ensures
        crate::protocol::cells_view(cells@) == compress_spec(columns_view(columns@)),
{
    let ghost cols = columns_view(columns@);
    let mut cells: Vec<Cell> = Vec::new();
    let mut prev_hl: Option<u32> = None;
    let n = columns.len();
    let mut i: usize = 0;
    while i < n
        invariant
            n == columns@.len(),
            cols == columns_view(columns@),
            i <= n,
            i == 0 ==> prev_hl == None::<u32>,
            crate::protocol::cells_view(cells@) + compressed(cols, i as int, prev_hl)
                == compressed(cols, 0, None),
        decreases n - i,
    {
        let mut run: usize = 1;
        while i + run < n && columns[i + run].1 == columns[i].1 && columns[i + run].0
            == columns[i].0
            invariant
                n == columns@.len(),
                cols == columns_view(columns@),
                i < n,
                1 <= run,
                i + run <= n,
                forall|j: int| i <= j < i + run ==> cols[j] == cols[i as int],
            decreases n - i - run,
        {
            run = run + 1;
        }
        proof {
            lemma_run_len_is(cols, i as int, run as int);
        }
        let hl = columns[i].1;
        let text = columns[i].0.as_str();
        let ghost before = crate::protocol::cells_view(cells@);
        if run > 1 {
            cells.push(Cell::run(text, hl, run as u32));
        } else if prev_hl == Some(hl) {
            cells.push(Cell::inherit(text));
        } else {
            cells.push(Cell::new(text, hl));
        }
        proof {
            assert(crate::protocol::cells_view(cells@) =~= before.push(cells@.last()@));
            let rest = compressed(cols, i + run, Some(hl));
            assert(compressed(cols, i as int, prev_hl) == seq![cells@.last()@] + rest);
            assert(before.push(cells@.last()@) + rest =~= before + (seq![cells@.last()@] + rest));
        }
        prev_hl = Some(hl);
        i = i + run;
    }
    proof {
        assert(crate::protocol::cells_view(cells@) =~= crate::protocol::cells_view(cells@)
            + compressed(cols, i as int, prev_hl));
    }
    cells
}

/// The columns one cell occupies: its text with its highlight id, followed by
/// an empty-text spacer with the same id when the cell is double width.
pub open spec fn cell_columns(cell: RowCellV, cache: Seq<Attrs>) -> Seq<Column> {
    let id = id_of(cache, cell.attrs) as u32;
    if cell.width == 2 {
        seq![(cell.text, id), (Seq::<char>::empty(), id)]
    } else {
        seq![(cell.text, id)]
    }
}

/// One `(text, hl_id)` column per terminal column of a row, ids taken from
/// `cache`.
pub open spec fn expand_row(row: Seq<RowCellV>, cache: Seq<Attrs>) -> Seq<Column>
    decreases row.len(),
{
    if row.len() == 0 {
        seq![]
    } else {
        expand_row(row.drop_last(), cache) + cell_columns(row.last(), cache)
    }
}

/// The attribute sets of a row, cell by cell.
pub open spec fn row_attrs(row: Seq<RowCellV>) -> Seq<Attrs> {
    row.map_values(|c: RowCellV| c.attrs)
}

/// A row's columns do not change when the id table is extended, as long as the
/// row's sets were already defined.
pub proof fn lemma_expand_stable(row: Seq<RowCellV>, old: Seq<Attrs>, cache: Seq<Attrs>)
    requires
        cache_wf(cache),
        extends(cache, old),
        forall|k: int| 0 <= k < row.len() ==> old.contains(#[trigger] row[k].attrs),
    ensures
        expand_row(row, old) == expand_row(row, cache),
    decreases row.len(),
{
    if row.len() > 0 {
        let prefix = row.drop_last();
        assert forall|k: int| 0 <= k < prefix.len() implies old.contains(#[trigger] prefix[k].attrs) by {
            assert(prefix[k] == row[k]);
        }
        lemma_expand_stable(prefix, old, cache);
        lemma_id_of_extends(old, cache, row.last().attrs);
    }
}

/// Expand a row to one `(text, hl_id)` column per terminal column, interning
/// highlights and materializing the empty spacer that follows a wide cell.
pub fn expand(row: &Vec<RowCell>, hlcache: &mut HlCache, hl_attrs: &mut Vec<Event>) -> (columns: Vec<
    (String, u32),
>)
    requires
        old(hlcache).wf(),
        old(hlcache)@.len() + row@.len() <= u32::MAX,
    ensures
        final(hlcache).wf(),
        final(hlcache)@ == intern_all(old(hlcache)@, row_attrs(row_view(row@))),
        columns_view(columns@) == expand_row(row_view(row@), final(hlcache)@),
        events_view(final(hl_attrs)@) == events_view(old(hl_attrs)@) + new_definitions(
            old(hlcache)@,
            final(hlcache)@,
        ),
{
    let ghost c0 = hlcache@;
    let ghost rv = row_view(row@);
    let mut columns: Vec<(String, u32)> = Vec::new();
    let n = row.len();
    let mut j: usize = 0;
    proof {
        assert(rv.take(0) =~= seq![]);
        assert(row_attrs(rv.take(0)) =~= seq![]);
        assert(new_definitions(c0, c0) =~= seq![]);
        assert(c0.subrange(0, c0.len() as int) =~= c0);
        assert(events_view(hl_attrs@) =~= events_view(old(hl_attrs)@) + seq![]);
    }
    while j < n
        invariant
            n == row@.len(),
            rv == row_view(row@),
            j <= n,
            hlcache.wf(),
            cache_wf(c0),
            c0.len() + n <= u32::MAX,
            hlcache@ == intern_all(c0, row_attrs(rv.take(j as int))),
            hlcache@.len() <= c0.len() + j,
            extends(hlcache@, c0),
            forall|k: int| 0 <= k < j ==> hlcache@.contains(#[trigger] rv[k].attrs),
            columns_view(columns@) == expand_row(rv.take(j as int), hlcache@),
            events_view(hl_attrs@) == events_view(old(hl_attrs)@) + new_definitions(c0, hlcache@),
        decreases n - j,
    {
        let cell = &row[j];
        let ghost before = hlcache@;
        let ghost cols_before = columns_view(columns@);
        let ghost evs_before = events_view(hl_attrs@);
        let id = hlcache.intern(&cell.attrs, hl_attrs);
        proof {
            let a = rv[j as int].attrs;
            assert(a == cell.attrs);
            lemma_new_definitions_step(c0, before, a);
            let taken = rv.take(j as int + 1);
            assert(taken.drop_last() =~= rv.take(j as int));
            assert(row_attrs(taken).drop_last() =~= row_attrs(rv.take(j as int)));
            assert(row_attrs(taken).last() == a);
            assert(hlcache@ == intern_all(c0, row_attrs(taken)));
            lemma_intern_all(c0, row_attrs(taken));
            assert(extends(hlcache@, before)) by {
                assert(hlcache@.subrange(0, before.len() as int) =~= before);
            }
            assert forall|k: int| 0 <= k < j implies before.contains(#[trigger] rv.take(j as int)[k].attrs) by {
                assert(rv.take(j as int)[k] == rv[k]);
            }
            lemma_expand_stable(rv.take(j as int), before, hlcache@);
            assert forall|k: int| 0 <= k < j + 1 implies hlcache@.contains(#[trigger] rv[k].attrs) by {
                if k < j {
                    lemma_id_of_extends(before, hlcache@, rv[k].attrs);
                }
            }
            assert(events_view(hl_attrs@) =~= events_view(old(hl_attrs)@) + new_definitions(
                c0,
                hlcache@,
            ));
        }
        columns.push((cell.text.clone(), id));
        if cell.width == 2 {
            columns.push((String::new(), id));
        }
        proof {
            let taken = rv.take(j as int + 1);
            assert(taken.last() == rv[j as int]);
            assert(columns_view(columns@) =~= expand_row(taken, hlcache@));
        }
        j = j + 1;
    }
    proof {
        assert(rv.take(n as int) =~= rv);
    }
    columns
}

/// Number of terminal columns a row occupies: two per double-width cell, one
/// per other cell.
pub open spec fn row_width(row: Seq<RowCellV>) -> nat
    decreases row.len(),
{
    if row.len() == 0 {
        0
    } else {
        row_width(row.drop_last()) + if row.last().width == 2 {
            2nat
        } else {
            1nat
        }
    }
}

/// A row expands to one column per terminal column it occupies.
pub proof fn lemma_expand_len(row: Seq<RowCellV>, cache: Seq<Attrs>)
    ensures
        expand_row(row, cache).len() == row_width(row),
    decreases row.len(),
{
    if row.len() > 0 {
        lemma_expand_len(row.drop_last(), cache);
    }
}

/// Number of cells across a sequence of rows.
pub open spec fn cell_count(lines: Seq<Seq<RowCellV>>) -> nat
    decreases lines.len(),
{
    if lines.len() == 0 {
        0
    } else {
        cell_count(lines.drop_last()) + lines.last().len()
    }
}

/// The id table after interning every cell of `lines`, row by row.
pub open spec fn intern_rows(cache: Seq<Attrs>, lines: Seq<Seq<RowCellV>>) -> Seq<Attrs>
    decreases lines.len(),
{
    if lines.len() == 0 {
        cache
    } else {
        intern_all(intern_rows(cache, lines.drop_last()), row_attrs(lines.last()))
    }
}

/// Every attribute set used in `lines` has an id in `cache`.
pub open spec fn all_defined(lines: Seq<Seq<RowCellV>>, cache: Seq<Attrs>) -> bool {
    forall|j: int, k: int|
        0 <= j < lines.len() && 0 <= k < lines[j].len() ==> cache.contains(#[trigger] lines[j][k].attrs)
}

/// The wire cells of each row, ids taken from `cache`.
pub open spec fn encode_lines(lines: Seq<Seq<RowCellV>>, cache: Seq<Attrs>) -> Seq<Seq<CellV>> {
    lines.map_values(|l: Seq<RowCellV>| compress_spec(expand_row(l, cache)))
}

proof fn lemma_cell_count_prefix(lines: Seq<Seq<RowCellV>>, i: int)
    requires
        0 <= i < lines.len(),
    ensures
        cell_count(lines.take(i + 1)) == cell_count(lines.take(i)) + lines[i].len(),
        cell_count(lines.take(i + 1)) <= cell_count(lines),
    decreases lines.len() - i,
{
    assert(lines.take(i + 1).drop_last() =~= lines.take(i));
    if i + 1 < lines.len() {
        lemma_cell_count_prefix(lines, i + 1);
    } else {
        assert(lines.take(i + 1) =~= lines);
    }
}

/// Interning rows only appends to a valid id table, defines every set the rows
/// use, and adds at most one id per cell.
pub proof fn lemma_intern_rows(cache: Seq<Attrs>, lines: Seq<Seq<RowCellV>>)
    requires
        cache_wf(cache),
        cache.len() + cell_count(lines) <= u32::MAX,
    ensures
        cache_wf(intern_rows(cache, lines)),
        extends(intern_rows(cache, lines), cache),
        intern_rows(cache, lines).len() <= cache.len() + cell_count(lines),
        all_defined(lines, intern_rows(cache, lines)),
    decreases lines.len(),
{
    assert(cache.subrange(0, cache.len() as int) =~= cache);
    if lines.len() > 0 {
        let prefix = lines.drop_last();
        lemma_intern_rows(cache, prefix);
        let mid = intern_rows(cache, prefix);
        let row = lines.last();
        lemma_intern_all(mid, row_attrs(row));
        let result = intern_rows(cache, lines);
        assert(result.subrange(0, cache.len() as int) =~= result.subrange(0, mid.len() as int).subrange(
            0,
            cache.len() as int,
        ));
        assert forall|j: int, k: int| 0 <= j < lines.len() && 0 <= k < lines[j].len() implies result.contains(
            #[trigger] lines[j][k].attrs,
        ) by {
            if j < prefix.len() {
                assert(prefix[j] == lines[j]);
                lemma_id_of_extends(mid, result, lines[j][k].attrs);
            } else {
                assert(row_attrs(row)[k] == row[k].attrs);
            }
        }
    }
}

/// Whether every row has an id in `cache` for each of its sets: kept by any
/// extension of the table.
pub proof fn lemma_all_defined_extends(lines: Seq<Seq<RowCellV>>, old: Seq<Attrs>, cache: Seq<Attrs>)
    requires
        cache_wf(cache),
        extends(cache, old),
        all_defined(lines, old),
    ensures
        all_defined(lines, cache),
{
    lemma_encoded_stable(lines, old, cache);
}

proof fn lemma_encoded_stable(lines: Seq<Seq<RowCellV>>, old: Seq<Attrs>, cache: Seq<Attrs>)
    requires
        cache_wf(cache),
        extends(cache, old),
        all_defined(lines, old),
    ensures
        encode_lines(lines, old) == encode_lines(lines, cache),
        all_defined(lines, cache),
{
    assert forall|j: int| 0 <= j < lines.len() implies encode_lines(lines, old)[j] == encode_lines(
        lines,
        cache,
    )[j] by {
        assert forall|k: int| 0 <= k < lines[j].len() implies old.contains(#[trigger] lines[j][k].attrs) by {}
        lemma_expand_stable(lines[j], old, cache);
    }
    assert(encode_lines(lines, old) =~= encode_lines(lines, cache));
    assert forall|j: int, k: int| 0 <= j < lines.len() && 0 <= k < lines[j].len() implies cache.contains(
        #[trigger] lines[j][k].attrs,
    ) by {
        lemma_id_of_extends(old, cache, lines[j][k].attrs);
    }
}

/// Encode each of `lines` as wire cells, interning highlights row by row.
fn encode_rows(lines: &Vec<Vec<RowCell>>, hlcache: &mut HlCache, hl_attrs: &mut Vec<Event>) -> (cells:
    Vec<Vec<Cell>>)
    requires
        old(hlcache).wf(),
        old(hlcache)@.len() + cell_count(lines_view(lines@)) <= u32::MAX,
    ensures
        final(hlcache).wf(),
        final(hlcache)@ == intern_rows(old(hlcache)@, lines_view(lines@)),
        final(hlcache)@.len() <= old(hlcache)@.len() + cell_count(lines_view(lines@)),
        extends(final(hlcache)@, old(hlcache)@),
        all_defined(lines_view(lines@), final(hlcache)@),
        cell_lines_view(cells@) == encode_lines(lines_view(lines@), final(hlcache)@),
        events_view(final(hl_attrs)@) == events_view(old(hl_attrs)@) + new_definitions(
            old(hlcache)@,
            final(hlcache)@,
        ),
{
    let ghost c0 = hlcache@;
    let ghost lv = lines_view(lines@);
    let mut cells: Vec<Vec<Cell>> = Vec::new();
    let n = lines.len();
    let mut j: usize = 0;
    proof {
        assert(lv.take(0) =~= seq![]);
        assert(new_definitions(c0, c0) =~= seq![]);
        assert(events_view(hl_attrs@) =~= events_view(old(hl_attrs)@) + seq![]);
        assert(c0.subrange(0, c0.len() as int) =~= c0);
        assert(cell_lines_view(cells@) =~= encode_lines(lv.take(0), c0));
    }
    while j < n
        invariant
            n == lines@.len(),
            lv == lines_view(lines@),
            j <= n,
            cache_wf(c0),
            hlcache.wf(),
            c0.len() + cell_count(lv) <= u32::MAX,
            hlcache@ == intern_rows(c0, lv.take(j as int)),
            hlcache@.len() <= c0.len() + cell_count(lv.take(j as int)),
            extends(hlcache@, c0),
            all_defined(lv.take(j as int), hlcache@),
            cell_lines_view(cells@) == encode_lines(lv.take(j as int), hlcache@),
            events_view(hl_attrs@) == events_view(old(hl_attrs)@) + new_definitions(c0, hlcache@),
        decreases n - j,
    {
        let ghost before = hlcache@;
        proof {
            lemma_cell_count_prefix(lv, j as int);
            assert(lv[j as int] == row_view(lines@[j as int]@));
        }
        let ghost cells_before = cell_lines_view(cells@);
        let columns = expand(&lines[j], hlcache, hl_attrs);
        let row_cells = compress(&columns);
        let ghost encoded = crate::protocol::cells_view(row_cells@);
        cells.push(row_cells);
        proof {
            assert(cell_lines_view(cells@) =~= cells_before.push(encoded));
            assert(encoded == compress_spec(expand_row(lv[j as int], hlcache@)));
        }
        proof {
            let row = lv[j as int];
            lemma_intern_all(before, row_attrs(row));
            let taken = lv.take(j as int + 1);
            assert(taken.drop_last() =~= lv.take(j as int));
            assert(taken.last() == row);
            assert(hlcache@ == intern_rows(c0, taken));
            lemma_encoded_stable(lv.take(j as int), before, hlcache@);
            assert(extends(hlcache@, c0)) by {
                assert(hlcache@.subrange(0, c0.len() as int) =~= hlcache@.subrange(
                    0,
                    before.len() as int,
                ).subrange(0, c0.len() as int));
            }
            assert(all_defined(taken, hlcache@)) by {
                assert forall|a: int, k: int| 0 <= a < taken.len() && 0 <= k < taken[a].len() implies hlcache@.contains(
                    #[trigger] taken[a][k].attrs,
                ) by {
                    if a < j {
                        assert(taken[a] == lv.take(j as int)[a]);
                    } else {
                        assert(row_attrs(row)[k] == row[k].attrs);
                    }
                }
            }
            assert(cell_lines_view(cells@) =~= encode_lines(taken, hlcache@));
            assert(new_definitions(c0, hlcache@) =~= new_definitions(c0, before) + new_definitions(
                before,
                hlcache@,
            ));
            assert(events_view(hl_attrs@) =~= events_view(old(hl_attrs)@) + new_definitions(
                c0,
                hlcache@,
            ));
        }
        j = j + 1;
    }
    proof {
        assert(lv.take(n as int) =~= lv);
    }
    cells
}

/// The columns a host lays out from wire cells: each cell covers `repeat`
/// columns (default 1) of its text, and an omitted id inherits the id of the
/// cell before it (`prev_hl` for the first).
pub open spec fn decode_cells(cells: Seq<CellV>, prev_hl: u32) -> Seq<Column>
    decreases cells.len(),
{
    if cells.len() == 0 {
        seq![]
    } else {
        let c = cells[0];
        let hl = match c.hl_id {
            Some(h) => h,
            None => prev_hl,
        };
        Seq::new(span_of(c), |_j: int| (c.text, hl)) + decode_cells(cells.drop_first(), hl)
    }
}

/// Total number of columns a sequence of wire cells advances the host.
pub open spec fn total_span(cells: Seq<CellV>) -> nat
    decreases cells.len(),
{
    if cells.len() == 0 {
        0
    } else {
        span_of(cells[0]) + total_span(cells.drop_first())
    }
}

/// Decoding lays out exactly as many columns as the cells span.
pub proof fn lemma_decode_len(cells: Seq<CellV>, prev_hl: u32)
    ensures
        decode_cells(cells, prev_hl).len() == total_span(cells),
    decreases cells.len(),
{
    if cells.len() > 0 {
        let hl = match cells[0].hl_id {
            Some(h) => h,
            None => prev_hl,
        };
        lemma_decode_len(cells.drop_first(), hl);
    }
}

proof fn lemma_compressed_decodes(columns: Seq<Column>, i: int, prev: Option<u32>, p: u32)
    requires
        columns.len() <= u32::MAX,
        0 <= i <= columns.len(),
        prev matches Some(h) ==> p == h,
    ensures
        decode_cells(compressed(columns, i, prev), p) == columns.subrange(i, columns.len() as int),
    decreases columns.len() - i,
{
    if i == columns.len() {
        assert(compressed(columns, i, prev) =~= seq![]);
        assert(columns.subrange(i, columns.len() as int) =~= seq![]);
    } else {
        lemma_run_len_bounds(columns, i);
        let run = run_len(columns, i);
        let (text, hl) = columns[i];
        let cells = compressed(columns, i, prev);
        let rest = compressed(columns, i + run, Some(hl));
        assert(cells.drop_first() =~= rest);
        lemma_compressed_decodes(columns, i + run, Some(hl), hl);
        assert(span_of(cells[0]) == run);
        let head = Seq::new(span_of(cells[0]), |_j: int| (cells[0].text, hl));
        assert(head =~= columns.subrange(i, i + run));
        assert(decode_cells(cells, p) == head + decode_cells(rest, hl));
        assert(columns.subrange(i, i + run) + columns.subrange(i + run, columns.len() as int)
            =~= columns.subrange(i, columns.len() as int));
    }
}

/// Compression is lossless: a host decoding the cells of a row gets back
/// exactly the columns the row was encoded from, whatever id preceded it.
pub proof fn lemma_compress_roundtrip(columns: Seq<Column>, prev_hl: u32)
    requires
        columns.len() <= u32::MAX,
    ensures
        decode_cells(compress_spec(columns), prev_hl) == columns,
{
    lemma_compressed_decodes(columns, 0, None, prev_hl);
    assert(columns.subrange(0, columns.len() as int) =~= columns);
}

/// The encoder always names the id it means where the wire needs it: a run
/// (a cell with `repeat`) carries its id, and so does the first cell of a row,
/// so no row depends on the row sent before it.
pub proof fn lemma_compressed_ids(columns: Seq<Column>)
    ensures
        forall|a: int|
            0 <= a < compress_spec(columns).len() && (#[trigger] compress_spec(columns)[a]).repeat
                is Some ==> compress_spec(columns)[a].hl_id is Some,
        compress_spec(columns).len() > 0 ==> compress_spec(columns)[0].hl_id is Some,
{
    lemma_compressed_runs(columns, 0, None);
}

proof fn lemma_compressed_runs(columns: Seq<Column>, i: int, prev: Option<u32>)
    ensures
        forall|a: int|
            0 <= a < compressed(columns, i, prev).len() && (#[trigger] compressed(
                columns,
                i,
                prev,
            )[a]).repeat is Some ==> compressed(columns, i, prev)[a].hl_id is Some,
        prev is None && compressed(columns, i, prev).len() > 0 ==> compressed(columns, i, prev)[0].hl_id is Some,
    decreases columns.len() - i,
{
    if 0 <= i < columns.len() {
        lemma_run_len_bounds(columns, i);
        let run = run_len(columns, i);
        let hl = columns[i].1;
        lemma_compressed_runs(columns, i + run, Some(hl));
        let cells = compressed(columns, i, prev);
        let rest = compressed(columns, i + run, Some(hl));
        assert forall|a: int| 0 <= a < cells.len() && (#[trigger] cells[a]).repeat is Some implies cells[a].hl_id is Some by {
            if a > 0 {
                assert(cells[a] == rest[a - 1]);
            }
        }
    }
}

/// The highlight id each wire cell stands for, given the id before the
/// first: its own when it names one, else that of the cell before it.
pub open spec fn cell_hls(cells: Seq<CellV>, prev_hl: u32) -> Seq<u32>
    decreases cells.len(),
{
    if cells.len() == 0 {
        seq![]
    } else {
        let hl = match cells[0].hl_id {
            Some(h) => h,
            None => prev_hl,
        };
        seq![hl] + cell_hls(cells.drop_first(), hl)
    }
}

proof fn lemma_compressed_maximal(columns: Seq<Column>, i: int, prev: Option<u32>, p: u32)
    requires
        columns.len() <= u32::MAX,
        0 <= i <= columns.len(),
        prev matches Some(h) ==> p == h,
    ensures
        ({
            let cells = compressed(columns, i, prev);
            let hls = cell_hls(cells, p);
            &&& hls.len() == cells.len()
            &&& i < columns.len() ==> cells.len() > 0 && cells[0].text == columns[i].0 && hls[0]
                == columns[i].1
            &&& forall|k: int|
                0 <= k < cells.len() && (#[trigger] cells[k]).repeat is Some ==> cells[k].repeat->0 >= 2
                    && cells[k].hl_id is Some
            &&& cells.len() > 0 && cells[0].repeat is None ==> (cells[0].hl_id is None <==> prev == Some(
                hls[0],
            ))
            &&& forall|k: int|
                0 < k < cells.len() && (#[trigger] cells[k]).repeat is None ==> (cells[k].hl_id is None
                    <==> hls[k] == hls[k - 1])
            &&& forall|k: int|
                0 <= k < cells.len() - 1 ==> (#[trigger] cells[k]).text != cells[k + 1].text || hls[k]
                    != hls[k + 1]
        }),
    decreases columns.len() - i,
{
    let cells = compressed(columns, i, prev);
    if i == columns.len() {
        assert(cells =~= seq![]);
    } else {
        lemma_run_len_bounds(columns, i);
        let run = run_len(columns, i);
        let (text, hl) = columns[i];
        let rest = compressed(columns, i + run, Some(hl));
        lemma_compressed_maximal(columns, i + run, Some(hl), hl);
        assert(cells.drop_first() =~= rest);
        let hls = cell_hls(cells, p);
        let rh = cell_hls(rest, hl);
        assert(hls == seq![hl] + rh);
        assert forall|k: int| 0 < k < cells.len() implies cells[k] == rest[k - 1] && hls[k] == rh[k - 1] by {}
        assert forall|k: int|
            0 <= k < cells.len() && (#[trigger] cells[k]).repeat is Some implies cells[k].repeat->0 >= 2
                && cells[k].hl_id is Some by {
            if k > 0 {
                assert(cells[k] == rest[k - 1]);
            }
        }
        assert forall|k: int|
            0 < k < cells.len() && (#[trigger] cells[k]).repeat is None implies (cells[k].hl_id is None
                <==> hls[k] == hls[k - 1]) by {
            assert(cells[k] == rest[k - 1]);
            if k > 1 {
                assert(rest[k - 1] == rest[k - 1]);
            }
        }
        assert forall|k: int| 0 <= k < cells.len() - 1 implies (#[trigger] cells[k]).text != cells[k
            + 1].text || hls[k] != hls[k + 1] by {
            if k == 0 {
                assert(columns[i + run] != columns[i]);
                assert(cells[1] == rest[0]);
            } else {
                assert(cells[k] == rest[k - 1]);
                assert(cells[k + 1] == rest[k]);
            }
        }
    }
}

/// Compression makes runs maximal and names ids only where needed: a `repeat`
/// is at least 2 and comes with its id; the first cell names its id; after
/// it, a single cell omits its id exactly when it has the id of the cell
/// before it; and no two adjacent cells stand for the same column (text and
/// id), so every run of equal columns is one cell.
pub proof fn lemma_compress_is_maximal(columns: Seq<Column>, prev_hl: u32)
    requires
        columns.len() <= u32::MAX,
    ensures
        ({
            let cells = compress_spec(columns);
            let hls = cell_hls(cells, prev_hl);
            &&& hls.len() == cells.len()
            &&& forall|k: int|
                0 <= k < cells.len() && (#[trigger] cells[k]).repeat is Some ==> cells[k].repeat->0 >= 2
                    && cells[k].hl_id is Some
            &&& cells.len() > 0 ==> cells[0].hl_id is Some
            &&& forall|k: int|
                0 < k < cells.len() && (#[trigger] cells[k]).repeat is None ==> (cells[k].hl_id is None
                    <==> hls[k] == hls[k - 1])
            &&& forall|k: int|
                0 <= k < cells.len() - 1 ==> (#[trigger] cells[k]).text != cells[k + 1].text || hls[k]
                    != hls[k + 1]
        }),
{
    lemma_compressed_maximal(columns, 0, None, prev_hl);
    lemma_compressed_runs(columns, 0, None);
}

/// Column conservation on the wire: the cells of a row advance the host by
/// exactly the number of columns they encode (runs included).
pub proof fn lemma_compress_conserves_columns(columns: Seq<Column>)
    requires
        columns.len() <= u32::MAX,
    ensures
        total_span(compress_spec(columns)) == columns.len(),
{
    lemma_compress_roundtrip(columns, 0);
    lemma_decode_len(compress_spec(columns), 0);
}

/// Whether the host already holds `line` at `row`: never on a full repaint,
/// otherwise when the baseline row (after any scroll) equals it.
pub open spec fn row_unchanged(
    prev: Option<ScreenV>,
    full: bool,
    scroll: Option<u16>,
    line: Seq<RowCellV>,
    row: int,
) -> bool {
    &&& !full
    &&& prev matches Some(p)
    &&& baseline(p.lines, row, scroll) == Some(line)
}

/// The rows below `m` that must be re-sent, in increasing order.
pub open spec fn changed_rows(
    prev: Option<ScreenV>,
    full: bool,
    scroll: Option<u16>,
    lines: Seq<Seq<RowCellV>>,
    m: int,
) -> Seq<int>
    decreases m,
{
    if m <= 0 {
        seq![]
    } else {
        let prior = changed_rows(prev, full, scroll, lines, m - 1);
        if row_unchanged(prev, full, scroll, lines[m - 1], m - 1) {
            prior
        } else {
            prior.push(m - 1)
        }
    }
}

/// The lines at the given rows.
pub open spec fn lines_at(lines: Seq<Seq<RowCellV>>, rows: Seq<int>) -> Seq<Seq<RowCellV>> {
    rows.map_values(|i: int| lines[i])
}

/// One `grid_line` per given row, each carrying the whole row's wire cells.
pub open spec fn grid_lines(lines: Seq<Seq<RowCellV>>, rows: Seq<int>, cache: Seq<Attrs>) -> Seq<
    EventV,
> {
    rows.map_values(
        |i: int| EventV::GridLine { row: i as u16, col: 0, cells: compress_spec(expand_row(lines[i], cache)) },
    )
}

/// The rows a diff re-sends lie below `m`, and carry no more cells than the
/// first `m` rows.
pub proof fn lemma_changed_rows_bounds(
    prev: Option<ScreenV>,
    full: bool,
    scroll: Option<u16>,
    lines: Seq<Seq<RowCellV>>,
    m: int,
)
    requires
        0 <= m <= lines.len(),
    ensures
        forall|a: int| 0 <= a < changed_rows(prev, full, scroll, lines, m).len() ==> 0 <= #[trigger] changed_rows(
            prev,
            full,
            scroll,
            lines,
            m,
        )[a] < m,
        cell_count(lines_at(lines, changed_rows(prev, full, scroll, lines, m))) <= cell_count(lines.take(m)),
    decreases m,
{
    if m > 0 {
        lemma_changed_rows_bounds(prev, full, scroll, lines, m - 1);
        lemma_cell_count_prefix(lines, m - 1);
        let prior = changed_rows(prev, full, scroll, lines, m - 1);
        if !row_unchanged(prev, full, scroll, lines[m - 1], m - 1) {
            assert(lines_at(lines, prior.push(m - 1)).drop_last() =~= lines_at(lines, prior));
        }
    } else {
        assert(lines.take(m) =~= seq![]);
    }
}

/// A row below `m` is re-sent exactly when the host does not already hold it.
pub proof fn lemma_changed_rows_contains(
    prev: Option<ScreenV>,
    full: bool,
    scroll: Option<u16>,
    lines: Seq<Seq<RowCellV>>,
    m: int,
    i: int,
)
    requires
        0 <= m <= lines.len(),
    ensures
        changed_rows(prev, full, scroll, lines, m).contains(i) <==> (0 <= i < m && !row_unchanged(
            prev,
            full,
            scroll,
            lines[i],
            i,
        )),
    decreases m,
{
    if m > 0 {
        lemma_changed_rows_contains(prev, full, scroll, lines, m - 1, i);
        let prior = changed_rows(prev, full, scroll, lines, m - 1);
        lemma_changed_rows_bounds(prev, full, scroll, lines, m - 1);
        if !row_unchanged(prev, full, scroll, lines[m - 1], m - 1) {
            let now = prior.push(m - 1);
            if now.contains(i) && i != m - 1 {
                let a = choose|a: int| 0 <= a < now.len() && now[a] == i;
                assert(prior[a] == i);
            }
            if i == m - 1 {
                assert(now[now.len() - 1] == i);
            }
            if prior.contains(i) {
                let a = choose|a: int| 0 <= a < prior.len() && prior[a] == i;
                assert(now[a] == i);
            }
        }
    }
}

/// What a frame's interning guarantees of its id table: it stays valid,
/// extends the previous one, and defines every set of the committed lines and
/// of the re-sent rows.
pub proof fn lemma_frame_cache(r: RendererV, s: SnapshotV)
    requires
        cache_wf(r.cache),
        has_id_room(r, s),
    ensures
        cache_wf(frame_cache(r, s)),
        extends(frame_cache(r, s), r.cache),
        all_defined(pushed_lines(r, s), frame_cache(r, s)),
        all_defined(lines_at(s.screen.lines, frame_rows(r, s.screen)), frame_cache(r, s)),
{
    let c1 = intern_rows(r.cache, pushed_lines(r, s));
    lemma_intern_rows(r.cache, pushed_lines(r, s));
    let lines = s.screen.lines;
    let rows = frame_rows(r, s.screen);
    lemma_changed_rows_bounds(
        r.prev,
        is_full(r, s.screen),
        frame_scroll(r, s.screen),
        lines,
        lines.len() as int,
    );
    assert(lines.take(lines.len() as int) =~= lines);
    lemma_intern_rows(c1, lines_at(lines, rows));
    let c = frame_cache(r, s);
    lemma_all_defined_extends(pushed_lines(r, s), c1, c);
    assert(c.subrange(0, r.cache.len() as int) =~= c.subrange(0, c1.len() as int).subrange(
        0,
        r.cache.len() as int,
    ));
}

/// Encode the rows of `lines` that the host does not already hold as
/// `grid_line` events, interning highlights as it goes.
fn diff_rows(
    prev: &Option<Screen>,
    full: bool,
    scroll: Option<u16>,
    lines: &Vec<Vec<RowCell>>,
    hlcache: &mut HlCache,
    hl_attrs: &mut Vec<Event>,
) -> (events: Vec<Event>)
    requires
        old(hlcache).wf(),
        old(hlcache)@.len() + cell_count(lines_view(lines@)) <= u32::MAX,
    ensures
        ({
            let pv = match prev {
                Some(p) => Some(p@),
                None => None,
            };
            let rows = changed_rows(pv, full, scroll, lines_view(lines@), lines@.len() as int);
            &&& final(hlcache).wf()
            &&& final(hlcache)@ == intern_rows(old(hlcache)@, lines_at(lines_view(lines@), rows))
            &&& extends(final(hlcache)@, old(hlcache)@)
            &&& final(hlcache)@.len() <= old(hlcache)@.len() + cell_count(lines_view(lines@))
            &&& all_defined(lines_at(lines_view(lines@), rows), final(hlcache)@)
            &&& events_view(events@) == grid_lines(lines_view(lines@), rows, final(hlcache)@)
            &&& events_view(final(hl_attrs)@) == events_view(old(hl_attrs)@) + new_definitions(
                old(hlcache)@,
                final(hlcache)@,
            )
        }),
{
    let ghost pv = match prev {
        Some(p) => Some(p@),
        None => None,
    };
    let ghost c0 = hlcache@;
    let ghost lv = lines_view(lines@);
    let mut events: Vec<Event> = Vec::new();
    let n = lines.len();
    let mut row: usize = 0;
    proof {
        assert(new_definitions(c0, c0) =~= seq![]);
        assert(events_view(hl_attrs@) =~= events_view(old(hl_attrs)@) + seq![]);
        assert(c0.subrange(0, c0.len() as int) =~= c0);
        assert(lines_at(lv, changed_rows(pv, full, scroll, lv, 0)) =~= seq![]);
        lemma_events_empty(events@);
        assert(events_view(events@) =~= grid_lines(lv, changed_rows(pv, full, scroll, lv, 0), c0));
        assert(lv.take(0) =~= seq![]);
    }
    while row < n
        invariant
            n == lines@.len(),
            lv == lines_view(lines@),
            pv == match prev {
                Some(p) => Some(p@),
                None => None,
            },
            row <= n,
            cache_wf(c0),
            hlcache.wf(),
            c0.len() + cell_count(lv) <= u32::MAX,
            hlcache@ == intern_rows(c0, lines_at(lv, changed_rows(pv, full, scroll, lv, row as int))),
            hlcache@.len() <= c0.len() + cell_count(lv.take(row as int)),
            extends(hlcache@, c0),
            all_defined(lines_at(lv, changed_rows(pv, full, scroll, lv, row as int)), hlcache@),
            events_view(events@) == grid_lines(lv, changed_rows(pv, full, scroll, lv, row as int), hlcache@),
            events_view(hl_attrs@) == events_view(old(hl_attrs)@) + new_definitions(c0, hlcache@),
        decreases n - row,
    {
        let line = &lines[row];
        proof {
            lemma_cell_count_prefix(lv, row as int);
            assert(lv[row as int] == row_view(line@));
        }
        let unchanged = if full {
            false
        } else {
            match prev {
                Some(p) => match baseline_row(p, row, scroll) {
                    Some(prev_line) => rows_equal(prev_line, line),
                    None => false,
                },
                None => false,
            }
        };
        let ghost rows_before = changed_rows(pv, full, scroll, lv, row as int);
        proof {
            assert(unchanged == row_unchanged(pv, full, scroll, lv[row as int], row as int));
        }
        if !unchanged {
            let ghost before = hlcache@;
            let ghost evs_before = events_view(events@);
            let columns = expand(line, hlcache, hl_attrs);
            let cells = compress(&columns);
            let ghost encoded = crate::protocol::cells_view(cells@);
            push_event(&mut events, Event::GridLine { row: row as u16, col: 0, cells });
            proof {
                let rl = lv[row as int];
                let rows_now = rows_before.push(row as int);
                assert(changed_rows(pv, full, scroll, lv, row as int + 1) == rows_now);
                lemma_intern_all(before, row_attrs(rl));
                let done_before = lines_at(lv, rows_before);
                let done = lines_at(lv, rows_now);
                assert(done.drop_last() =~= done_before);
                assert(done.last() == rl);
                assert(hlcache@ == intern_rows(c0, done));
                lemma_encoded_stable(done_before, before, hlcache@);
                assert(extends(hlcache@, c0)) by {
                    assert(hlcache@.subrange(0, c0.len() as int) =~= hlcache@.subrange(
                        0,
                        before.len() as int,
                    ).subrange(0, c0.len() as int));
                }
                assert(all_defined(done, hlcache@)) by {
                    assert forall|a: int, k: int| 0 <= a < done.len() && 0 <= k < done[a].len() implies hlcache@.contains(
                        #[trigger] done[a][k].attrs,
                    ) by {
                        if a < done_before.len() {
                            assert(done[a] == done_before[a]);
                        } else {
                            assert(row_attrs(rl)[k] == rl[k].attrs);
                        }
                    }
                }
                assert forall|a: int| 0 <= a < rows_before.len() implies grid_lines(lv, rows_before, before)[a]
                    == grid_lines(lv, rows_before, hlcache@)[a] by {
                    assert(encode_lines(done_before, before)[a] == encode_lines(done_before, hlcache@)[a]);
                }
                assert(grid_lines(lv, rows_before, before) =~= grid_lines(lv, rows_before, hlcache@));
                assert(encoded == compress_spec(expand_row(rl, hlcache@)));
                assert(grid_lines(lv, rows_now, hlcache@) =~= grid_lines(lv, rows_before, hlcache@).push(
                    EventV::GridLine { row: row as u16, col: 0, cells: encoded },
                ));
                assert(events_view(events@) =~= grid_lines(lv, rows_now, hlcache@));
                assert(new_definitions(c0, hlcache@) =~= new_definitions(c0, before) + new_definitions(
                    before,
                    hlcache@,
                ));
                assert(events_view(hl_attrs@) =~= events_view(old(hl_attrs)@) + new_definitions(
                    c0,
                    hlcache@,
                ));
            }
        } else {
            proof {
                assert(changed_rows(pv, full, scroll, lv, row as int + 1) == rows_before);
            }
        }
        row = row + 1;
    }
    proof {
        assert(lv.take(n as int) =~= lv);
        lemma_changed_rows_bounds(pv, full, scroll, lv, n as int);
    }
    events
}

/// Default foreground the host applies to cells with no explicit color.
pub const DEFAULT_FG: u32 = 0xd0d0d0;

/// Default background the host applies to cells with no explicit color.
pub const DEFAULT_BG: u32 = 0x000000;

/// Cursor state reported alongside a screen.
#[derive(Debug, Clone, Copy, PartialEq, Eq, Structural)]
pub struct Cursor {
    pub row: u16,
    pub col: u16,
    pub visible: bool,
    pub shape: CursorShape,
}

/// Everything observed from one emulation step: the screen plus side state,
/// and the lines that scrolled off the top of the primary screen since the
/// previous snapshot, oldest first.
#[derive(Debug, PartialEq, Eq)]
pub struct Snapshot {
    pub screen: Screen,
    pub cursor: Cursor,
    pub alt_screen: bool,
    pub title: Option<String>,
    pub bell: bool,
    pub committed: Vec<Vec<RowCell>>,
}

/// The mathematical value of a [`Snapshot`].
pub struct SnapshotV {
    pub screen: ScreenV,
    pub cursor: Cursor,
    pub alt_screen: bool,
    pub title: Option<Seq<char>>,
    pub bell: bool,
    pub committed: Seq<Seq<RowCellV>>,
}

impl View for Snapshot {
    type V = SnapshotV;

    open spec fn view(&self) -> SnapshotV {
        SnapshotV {
            screen: self.screen@,
            cursor: self.cursor,
            alt_screen: self.alt_screen,
            title: match self.title {
                Some(t) => Some(t@),
                None => None,
            },
            bell: self.bell,
            committed: lines_view(self.committed@),
        }
    }
}

/// Stateful renderer: diffs successive snapshots and interns highlights for the
/// lifetime of a connection.
pub struct Renderer {
    prev: Option<Screen>,
    hlcache: HlCache,
    prev_cursor: Option<Cursor>,
    prev_alt: Option<bool>,
    defaults_sent: bool,
    scrollback: bool,
    resize_pending: bool,
}

/// What a renderer remembers between frames: the screen the host holds, the
/// highlight ids defined so far, the cursor and mode last reported, whether
/// the default colors were sent, whether the session advertised `scrollback`
/// (so committed lines are pushed), and whether a host resize is waiting to
/// be acknowledged.
pub struct RendererV {
    pub prev: Option<ScreenV>,
    pub cache: Seq<Attrs>,
    pub prev_cursor: Option<Cursor>,
    pub prev_alt: Option<bool>,
    pub defaults_sent: bool,
    pub scrollback: bool,
    pub resize_pending: bool,
}

impl View for Renderer {
    type V = RendererV;

    closed spec fn view(&self) -> RendererV {
        RendererV {
            prev: match self.prev {
                Some(p) => Some(p@),
                None => None,
            },
            cache: self.hlcache@,
            prev_cursor: self.prev_cursor,
            prev_alt: self.prev_alt,
            defaults_sent: self.defaults_sent,
            scrollback: self.scrollback,
            resize_pending: self.resize_pending,
        }
    }
}

/// The frame acknowledges a size: the screen changed size since the previous
/// frame, or the host asked for a resize since then (to any size, its current
/// one included).
pub open spec fn is_resized(r: RendererV, s: ScreenV) -> bool {
    r.prev matches Some(p) && (p.cols != s.cols || p.rows != s.rows || r.resize_pending)
}

/// The committed lines a frame pushes: those of the snapshot when the session
/// advertised `scrollback` and the primary screen is showing; none otherwise
/// (only the primary screen has scrollback).
pub open spec fn pushed_lines(r: RendererV, s: SnapshotV) -> Seq<Seq<RowCellV>> {
    if r.scrollback && !s.alt_screen {
        s.committed
    } else {
        Seq::empty()
    }
}

/// The frame repaints everything: the first frame, or one after a resize.
pub open spec fn is_full(r: RendererV, s: ScreenV) -> bool {
    r.prev is None || is_resized(r, s)
}

/// The upward scroll a frame emits, if any (never on a full repaint).
pub open spec fn frame_scroll(r: RendererV, s: ScreenV) -> Option<u16> {
    if is_full(r, s) {
        None
    } else {
        scroll_shift(r.prev->0.lines, s.lines)
    }
}

/// The rows a frame re-sends, in increasing order.
pub open spec fn frame_rows(r: RendererV, s: ScreenV) -> Seq<int> {
    changed_rows(r.prev, is_full(r, s), frame_scroll(r, s), s.lines, s.lines.len() as int)
}

/// The id table after a frame: pushed lines interned first, then the
/// re-sent rows, cell by cell.
pub open spec fn frame_cache(r: RendererV, s: SnapshotV) -> Seq<Attrs> {
    intern_rows(
        intern_rows(r.cache, pushed_lines(r, s)),
        lines_at(s.screen.lines, frame_rows(r, s.screen)),
    )
}

/// The events before the re-sent rows, given what the frame decided:
/// `grid_resize`, `default_colors`, the given `hl_attr` definitions, a
/// `scrollback_push` of the given lines when there are any, `grid_clear`,
/// `grid_scroll`.
#[verifier::opaque]
pub open spec fn head_events(
    resized: bool,
    send_defaults: bool,
    full: bool,
    scroll: Option<u16>,
    cols: u16,
    rows: u16,
    definitions: Seq<EventV>,
    scrollback: Seq<Seq<CellV>>,
) -> Seq<EventV> {
    (if resized {
        seq![EventV::GridResize { cols, rows }]
    } else {
        seq![]
    }) + (if send_defaults {
        seq![EventV::DefaultColors { fg: DEFAULT_FG, bg: DEFAULT_BG, sp: DEFAULT_FG }]
    } else {
        seq![]
    }) + definitions + (if scrollback.len() > 0 {
        seq![EventV::ScrollbackPush { lines: scrollback }]
    } else {
        seq![]
    }) + (if full {
        seq![EventV::GridClear]
    } else {
        seq![]
    }) + match scroll {
        Some(k) => seq![
            EventV::GridScroll { top: 0, bot: rows, left: 0, right: cols, rows: k as i32, cols: 0 },
        ],
        None => seq![],
    }
}

/// The part of a frame before the re-sent rows: `grid_resize`,
/// `default_colors`, the new `hl_attr` definitions, `scrollback_push`,
/// `grid_clear`, `grid_scroll`.
pub open spec fn frame_head(r: RendererV, s: SnapshotV) -> Seq<EventV> {
    head_events(
        is_resized(r, s.screen),
        !r.defaults_sent,
        is_full(r, s.screen),
        frame_scroll(r, s.screen),
        s.screen.cols,
        s.screen.rows,
        new_definitions(r.cache, frame_cache(r, s)),
        encode_lines(pushed_lines(r, s), frame_cache(r, s)),
    )
}

/// `cursor` when the cursor moved or changed.
pub open spec fn cursor_part(prev_cursor: Option<Cursor>, cursor: Cursor) -> Seq<EventV> {
    if prev_cursor != Some(cursor) {
        seq![
            EventV::Cursor {
                row: cursor.row,
                col: cursor.col,
                visible: cursor.visible,
                shape: cursor.shape,
            },
        ]
    } else {
        seq![]
    }
}

/// `mode` when the alt-screen state changed.
pub open spec fn mode_part(prev_alt: Option<bool>, alt_screen: bool) -> Seq<EventV> {
    if prev_alt != Some(alt_screen) {
        seq![EventV::Mode { alt_screen }]
    } else {
        seq![]
    }
}

/// `title` when one was set.
pub open spec fn title_part(title: Option<Seq<char>>) -> Seq<EventV> {
    match title {
        Some(t) => seq![EventV::Title { text: t }],
        None => seq![],
    }
}

/// `bell` when it rang.
pub open spec fn bell_part(bell: bool) -> Seq<EventV> {
    if bell {
        seq![EventV::Bell]
    } else {
        seq![]
    }
}

/// The events after the re-sent rows: `cursor` when it moved or changed,
/// `mode` when the alt-screen state changed, `title`, `bell`, and the closing
/// `flush`.
#[verifier::opaque]
pub open spec fn tail_events(
    prev_cursor: Option<Cursor>,
    prev_alt: Option<bool>,
    cursor: Cursor,
    alt_screen: bool,
    title: Option<Seq<char>>,
    bell: bool,
) -> Seq<EventV> {
    cursor_part(prev_cursor, cursor) + mode_part(prev_alt, alt_screen) + title_part(title) + bell_part(
        bell,
    ) + seq![EventV::Flush]
}

/// The part of a frame after the re-sent rows: `cursor`, `mode`, `title`,
/// `bell`, and the closing `flush`.
pub open spec fn frame_tail(r: RendererV, s: SnapshotV) -> Seq<EventV> {
    tail_events(r.prev_cursor, r.prev_alt, s.cursor, s.alt_screen, s.title, s.bell)
}

/// The events of one frame, in the protocol's frame order: `grid_resize` on a
/// size change, `default_colors` on the first frame, the `hl_attr` definitions
/// of new ids, `scrollback_push` of the committed lines, `grid_clear` on a full
/// repaint, `grid_scroll`, the re-sent `grid_line`s, `cursor` when it moved or
/// changed, `mode` when the alt-screen state changed, `title`, `bell`, and the
/// closing `flush`.
pub open spec fn frame_events(r: RendererV, s: SnapshotV) -> Seq<EventV> {
    frame_head(r, s) + grid_lines(s.screen.lines, frame_rows(r, s.screen), frame_cache(r, s))
        + frame_tail(r, s)
}

/// What the renderer remembers after a frame.
pub open spec fn frame_state(r: RendererV, s: SnapshotV) -> RendererV {
    RendererV {
        prev: Some(s.screen),
        cache: frame_cache(r, s),
        prev_cursor: Some(s.cursor),
        prev_alt: Some(s.alt_screen),
        defaults_sent: true,
        scrollback: r.scrollback,
        resize_pending: false,
    }
}

/// Every frame closes with `flush`.
pub proof fn lemma_frame_ends_with_flush(r: RendererV, s: SnapshotV)
    ensures
        frame_events(r, s).len() > 0,
        frame_events(r, s).last() == EventV::Flush,
{
    reveal(tail_events);
    let t = frame_tail(r, s);
    assert(t.last() == EventV::Flush);
    assert(frame_events(r, s) == frame_head(r, s) + grid_lines(
        s.screen.lines,
        frame_rows(r, s.screen),
        frame_cache(r, s),
    ) + t);
}

/// Whether every `hl_attr` among `events` defines an id in `lo..hi`.
pub open spec fn defines_ids_within(events: Seq<EventV>, lo: int, hi: int) -> bool {
    forall|i: int|
        0 <= i < events.len() ==> (#[trigger] events[i] matches EventV::HlAttr { id, .. } ==> lo <= id
            < hi)
}

proof fn lemma_defines_ids_concat(a: Seq<EventV>, b: Seq<EventV>, lo: int, hi: int)
    requires
        defines_ids_within(a, lo, hi),
        defines_ids_within(b, lo, hi),
    ensures
        defines_ids_within(a + b, lo, hi),
{
    assert forall|i: int| 0 <= i < (a + b).len() implies (#[trigger] (a + b)[i] matches EventV::HlAttr {
        id,
        ..
    } ==> lo <= id < hi) by {
        if i >= a.len() {
            assert((a + b)[i] == b[i - a.len()]);
        }
    }
}

/// Highlight ids are defined once per connection: every `hl_attr` a frame
/// sends defines an id the renderer had not defined before, and only ids of
/// its table after the frame.
pub proof fn lemma_frame_defines_only_new_ids(r: RendererV, s: SnapshotV)
    requires
        cache_wf(r.cache),
        has_id_room(r, s),
    ensures
        defines_ids_within(frame_events(r, s), r.cache.len() as int, frame_state(r, s).cache.len() as int),
{
    reveal(head_events);
    reveal(tail_events);
    lemma_frame_cache(r, s);
    let lo = r.cache.len() as int;
    let c = frame_cache(r, s);
    let hi = c.len() as int;
    let screen = s.screen;
    let defs = new_definitions(r.cache, c);
    assert(defines_ids_within(defs, lo, hi));
    let pa: Seq<EventV> = if is_resized(r, screen) {
        seq![EventV::GridResize { cols: screen.cols, rows: screen.rows }]
    } else {
        seq![]
    };
    let pb: Seq<EventV> = if !r.defaults_sent {
        seq![EventV::DefaultColors { fg: DEFAULT_FG, bg: DEFAULT_BG, sp: DEFAULT_FG }]
    } else {
        seq![]
    };
    let pe: Seq<EventV> = if encode_lines(pushed_lines(r, s), c).len() > 0 {
        seq![EventV::ScrollbackPush { lines: encode_lines(pushed_lines(r, s), c) }]
    } else {
        seq![]
    };
    let pf: Seq<EventV> = if is_full(r, screen) {
        seq![EventV::GridClear]
    } else {
        seq![]
    };
    let pg: Seq<EventV> = match frame_scroll(r, screen) {
        Some(k) => seq![
            EventV::GridScroll {
                top: 0,
                bot: screen.rows,
                left: 0,
                right: screen.cols,
                rows: k as i32,
                cols: 0,
            },
        ],
        None => seq![],
    };
    assert(frame_head(r, s) == pa + pb + defs + pe + pf + pg);
    assert(defines_ids_within(pa, lo, hi));
    assert(defines_ids_within(pb, lo, hi));
    assert(defines_ids_within(pe, lo, hi));
    assert(defines_ids_within(pf, lo, hi));
    assert(defines_ids_within(pg, lo, hi));
    lemma_defines_ids_concat(pa, pb, lo, hi);
    lemma_defines_ids_concat(pa + pb, defs, lo, hi);
    lemma_defines_ids_concat(pa + pb + defs, pe, lo, hi);
    lemma_defines_ids_concat(pa + pb + defs + pe, pf, lo, hi);
    lemma_defines_ids_concat(pa + pb + defs + pe + pf, pg, lo, hi);
    let body = grid_lines(screen.lines, frame_rows(r, screen), c);
    assert(defines_ids_within(body, lo, hi));
    let ta = cursor_part(r.prev_cursor, s.cursor);
    let tb = mode_part(r.prev_alt, s.alt_screen);
    let tc = title_part(s.title);
    let td = bell_part(s.bell);
    let te: Seq<EventV> = seq![EventV::Flush];
    assert(defines_ids_within(ta, lo, hi));
    assert(defines_ids_within(tb, lo, hi));
    assert(defines_ids_within(tc, lo, hi));
    assert(defines_ids_within(td, lo, hi));
    assert(defines_ids_within(te, lo, hi));
    lemma_defines_ids_concat(ta, tb, lo, hi);
    lemma_defines_ids_concat(ta + tb, tc, lo, hi);
    lemma_defines_ids_concat(ta + tb + tc, td, lo, hi);
    lemma_defines_ids_concat(ta + tb + tc + td, te, lo, hi);
    assert(frame_tail(r, s) == ta + tb + tc + td + te);
    lemma_defines_ids_concat(frame_head(r, s), body, lo, hi);
    lemma_defines_ids_concat(frame_head(r, s) + body, frame_tail(r, s), lo, hi);
}

/// A screen identical to the one the host holds is not repainted (unless the
/// host asked for a resize): no clear, no scroll, and no row is re-sent.
pub proof fn lemma_unchanged_screen_resends_nothing(r: RendererV, s: SnapshotV)
    requires
        r.prev == Some(s.screen),
        !r.resize_pending,
    ensures
        !is_full(r, s.screen),
        frame_scroll(r, s.screen) is None,
        frame_rows(r, s.screen) == Seq::<int>::empty(),
{
    let lines = s.screen.lines;
    assert(scroll_shift(lines, lines) is None);
    assert forall|m: int| 0 <= m <= lines.len() implies changed_rows(
        r.prev,
        false,
        None,
        lines,
        m,
    ) == Seq::<int>::empty() by {
        lemma_no_rows_changed(r.prev, lines, m);
    }
}

proof fn lemma_no_rows_changed(prev: Option<ScreenV>, lines: Seq<Seq<RowCellV>>, m: int)
    requires
        prev matches Some(p) && p.lines == lines,
        0 <= m <= lines.len(),
    ensures
        changed_rows(prev, false, None, lines, m) == Seq::<int>::empty(),
    decreases m,
{
    if m > 0 {
        lemma_no_rows_changed(prev, lines, m - 1);
        assert(row_unchanged(prev, false, None, lines[m - 1], m - 1));
    }
}

/// The first frame repaints everything: it re-sends every row, in order,
/// without scrolling.
pub proof fn lemma_first_frame_repaints_everything(r: RendererV, s: SnapshotV)
    requires
        r.prev is None,
    ensures
        is_full(r, s.screen),
        frame_scroll(r, s.screen) is None,
        frame_rows(r, s.screen) == Seq::new(s.screen.lines.len(), |i: int| i),
{
    let lines = s.screen.lines;
    assert forall|m: int| 0 <= m <= lines.len() implies changed_rows(r.prev, true, None, lines, m)
        == Seq::new(m as nat, |i: int| i) by {
        lemma_all_rows_changed(r.prev, lines, m);
    }
}

proof fn lemma_all_rows_changed(prev: Option<ScreenV>, lines: Seq<Seq<RowCellV>>, m: int)
    requires
        0 <= m <= lines.len(),
    ensures
        changed_rows(prev, true, None, lines, m) == Seq::new(m as nat, |i: int| i),
    decreases m,
{
    if m > 0 {
        lemma_all_rows_changed(prev, lines, m - 1);
        assert(Seq::new((m - 1) as nat, |i: int| i).push(m - 1) =~= Seq::new(m as nat, |i: int| i));
    } else {
        assert(Seq::new(0, |i: int| i) =~= Seq::<int>::empty());
    }
}

/// Column conservation for a frame: every `grid_line` it sends advances the
/// host by exactly the columns its row occupies (double-width cells count two,
/// runs count their length), provided the row fits the wire's 32-bit repeat.
pub proof fn lemma_frame_conserves_columns(r: RendererV, s: SnapshotV, a: int)
    requires
        0 <= a < frame_rows(r, s.screen).len(),
        row_width(s.screen.lines[frame_rows(r, s.screen)[a]]) <= u32::MAX,
    ensures
        grid_lines(s.screen.lines, frame_rows(r, s.screen), frame_cache(r, s))[a] matches EventV::GridLine {
            cells,
            ..
        } && total_span(cells) == row_width(s.screen.lines[frame_rows(r, s.screen)[a]]),
{
    let line = s.screen.lines[frame_rows(r, s.screen)[a]];
    let c = frame_cache(r, s);
    lemma_expand_len(line, c);
    lemma_compress_conserves_columns(expand_row(line, c));
}

/// The position of an event's kind in the protocol's frame order:
/// `grid_resize`, `default_colors`, `hl_attr`, `scrollback_push`,
/// `grid_clear`, `grid_scroll`, `grid_line`, `cursor`, `mode`, `title`,
/// `bell`, `flush`; kinds that never occur in a frame come last.
pub open spec fn frame_rank(e: EventV) -> int {
    match e {
        EventV::GridResize { .. } => 0,
        EventV::DefaultColors { .. } => 1,
        EventV::HlAttr { .. } => 2,
        EventV::ScrollbackPush { .. } => 3,
        EventV::GridClear => 4,
        EventV::GridScroll { .. } => 5,
        EventV::GridLine { .. } => 6,
        EventV::Cursor { .. } => 7,
        EventV::Mode { .. } => 8,
        EventV::Title { .. } => 9,
        EventV::Bell => 10,
        EventV::Flush => 11,
        _ => 12,
    }
}

/// Events in the protocol's frame order: kinds never go backwards, and only
/// `hl_attr` and `grid_line` occur more than once.
pub open spec fn in_frame_order(events: Seq<EventV>) -> bool {
    forall|i: int, j: int|
        0 <= i < j < events.len() ==> frame_rank(#[trigger] events[i]) < frame_rank(#[trigger] events[j])
            || (frame_rank(events[i]) == frame_rank(events[j]) && (frame_rank(events[i]) == 2
            || frame_rank(events[i]) == 6))
}

/// Some event of `events` has the kind of rank `k`.
pub open spec fn has_rank(events: Seq<EventV>, k: int) -> bool {
    exists|i: int| 0 <= i < events.len() && frame_rank(#[trigger] events[i]) == k
}

proof fn lemma_order_append(a: Seq<EventV>, b: Seq<EventV>, k: int)
    requires
        in_frame_order(a),
        forall|i: int| 0 <= i < a.len() ==> frame_rank(#[trigger] a[i]) < k,
        forall|i: int| 0 <= i < b.len() ==> frame_rank(#[trigger] b[i]) == k,
        b.len() <= 1 || k == 2 || k == 6,
    ensures
        in_frame_order(a + b),
        forall|i: int| 0 <= i < (a + b).len() ==> frame_rank(#[trigger] (a + b)[i]) <= k,
{
    let c = a + b;
    assert forall|i: int, j: int| 0 <= i < j < c.len() implies frame_rank(#[trigger] c[i]) < frame_rank(
        #[trigger] c[j],
    ) || (frame_rank(c[i]) == frame_rank(c[j]) && (frame_rank(c[i]) == 2 || frame_rank(c[i]) == 6)) by {
        if j < a.len() {
            assert(c[i] == a[i] && c[j] == a[j]);
        } else if i < a.len() {
            assert(c[i] == a[i] && c[j] == b[j - a.len()]);
        } else {
            assert(c[i] == b[i - a.len()] && c[j] == b[j - a.len()]);
        }
    }
    assert forall|i: int| 0 <= i < c.len() implies frame_rank(#[trigger] c[i]) <= k by {
        if i < a.len() {
            assert(c[i] == a[i]);
        } else {
            assert(c[i] == b[i - a.len()]);
        }
    }
}

proof fn lemma_has_rank_append(a: Seq<EventV>, b: Seq<EventV>, k: int)
    ensures
        has_rank(a + b, k) == (has_rank(a, k) || has_rank(b, k)),
{
    let c = a + b;
    if has_rank(c, k) {
        let i = choose|i: int| 0 <= i < c.len() && frame_rank(#[trigger] c[i]) == k;
        if i < a.len() {
            assert(c[i] == a[i]);
        } else {
            assert(c[i] == b[i - a.len()]);
        }
    }
    if has_rank(a, k) {
        let i = choose|i: int| 0 <= i < a.len() && frame_rank(#[trigger] a[i]) == k;
        assert(c[i] == a[i]);
    }
    if has_rank(b, k) {
        let i = choose|i: int| 0 <= i < b.len() && frame_rank(#[trigger] b[i]) == k;
        assert(c[a.len() + i] == b[i]);
    }
}

/// A part of a frame whose events all have rank `j`: it has an event of rank
/// `k` exactly when it is non-empty and `j == k`.
proof fn lemma_has_rank_part(p: Seq<EventV>, j: int, k: int)
    requires
        forall|i: int| 0 <= i < p.len() ==> frame_rank(#[trigger] p[i]) == j,
    ensures
        has_rank(p, k) == (p.len() > 0 && j == k),
{
    if p.len() > 0 && j == k {
        assert(frame_rank(p[0]) == k);
    }
}

/// The rows a diff re-sends strictly increase.
proof fn lemma_changed_rows_increasing(
    prev: Option<ScreenV>,
    full: bool,
    scroll: Option<u16>,
    lines: Seq<Seq<RowCellV>>,
    m: int,
)
    requires
        0 <= m <= lines.len(),
    ensures
        forall|a: int, b: int|
            0 <= a < b < changed_rows(prev, full, scroll, lines, m).len() ==> #[trigger] changed_rows(
                prev,
                full,
                scroll,
                lines,
                m,
            )[a] < #[trigger] changed_rows(prev, full, scroll, lines, m)[b],
    decreases m,
{
    if m > 0 {
        lemma_changed_rows_increasing(prev, full, scroll, lines, m - 1);
        lemma_changed_rows_bounds(prev, full, scroll, lines, m - 1);
    }
}

/// The parts a frame is made of, each of a single kind, in frame order.
pub open spec fn frame_parts(r: RendererV, s: SnapshotV) -> Seq<Seq<EventV>> {
    let screen = s.screen;
    let c = frame_cache(r, s);
    let pushed = encode_lines(pushed_lines(r, s), c);
    seq![
        if is_resized(r, screen) {
            seq![EventV::GridResize { cols: screen.cols, rows: screen.rows }]
        } else {
            seq![]
        },
        if !r.defaults_sent {
            seq![EventV::DefaultColors { fg: DEFAULT_FG, bg: DEFAULT_BG, sp: DEFAULT_FG }]
        } else {
            seq![]
        },
        new_definitions(r.cache, c),
        if pushed.len() > 0 {
            seq![EventV::ScrollbackPush { lines: pushed }]
        } else {
            seq![]
        },
        if is_full(r, screen) {
            seq![EventV::GridClear]
        } else {
            seq![]
        },
        match frame_scroll(r, screen) {
            Some(k) => seq![
                EventV::GridScroll {
                    top: 0,
                    bot: screen.rows,
                    left: 0,
                    right: screen.cols,
                    rows: k as i32,
                    cols: 0,
                },
            ],
            None => seq![],
        },
        grid_lines(screen.lines, frame_rows(r, screen), c),
        cursor_part(r.prev_cursor, s.cursor),
        mode_part(r.prev_alt, s.alt_screen),
        title_part(s.title),
        bell_part(s.bell),
        seq![EventV::Flush],
    ]
}

/// The first `m` parts of a frame, joined.
pub open spec fn join_parts(p: Seq<Seq<EventV>>, m: int) -> Seq<EventV>
    decreases m,
{
    if m <= 0 {
        seq![]
    } else {
        join_parts(p, m - 1) + p[m - 1]
    }
}

proof fn lemma_has_rank_join(p: Seq<Seq<EventV>>, m: int, k: int)
    requires
        0 <= m <= p.len(),
        forall|j: int, i: int| 0 <= j < m && 0 <= i < p[j].len() ==> frame_rank(#[trigger] p[j][i]) == j,
    ensures
        has_rank(join_parts(p, m), k) == (0 <= k < m && p[k].len() > 0),
    decreases m,
{
    if m > 0 {
        lemma_has_rank_join(p, m - 1, k);
        lemma_has_rank_append(join_parts(p, m - 1), p[m - 1], k);
        assert forall|i: int| 0 <= i < p[m - 1].len() implies frame_rank(#[trigger] p[m - 1][i]) == m - 1 by {}
        lemma_has_rank_part(p[m - 1], m - 1, k);
    } else {
        assert(join_parts(p, m) =~= Seq::<EventV>::empty());
    }
}

proof fn lemma_frame_is_its_parts(r: RendererV, s: SnapshotV)
    ensures
        frame_events(r, s) == join_parts(frame_parts(r, s), 12),
        frame_parts(r, s).len() == 12,
        forall|j: int, i: int|
            0 <= j < 12 && 0 <= i < frame_parts(r, s)[j].len() ==> frame_rank(
                #[trigger] frame_parts(r, s)[j][i],
            ) == j,
{
    reveal(head_events);
    reveal(tail_events);
    let p = frame_parts(r, s);
    reveal_with_fuel(join_parts, 13);
    assert(join_parts(p, 12) =~= p[0] + p[1] + p[2] + p[3] + p[4] + p[5] + p[6] + p[7] + p[8] + p[9] + p[10]
        + p[11]);
    assert(frame_head(r, s) == p[0] + p[1] + p[2] + p[3] + p[4] + p[5]);
    assert(frame_tail(r, s) == p[7] + p[8] + p[9] + p[10] + p[11]);
    assert(frame_events(r, s) =~= join_parts(p, 12));
}

/// What a frame reports besides the grid: `grid_resize` exactly on a size
/// the host must acknowledge, `default_colors` exactly on the first frame,
/// `scrollback_push` exactly when lines are pushed, `grid_clear` exactly on a
/// full repaint, `grid_scroll` exactly when the screen scrolled, `cursor`
/// exactly when the cursor differs from the last one reported, `mode` exactly
/// when the alt-screen state differs from the last one reported, `title`
/// exactly when one was set, and `bell` exactly when it rang; and the tail
/// carries the snapshot's values.
pub proof fn lemma_frame_reports(r: RendererV, s: SnapshotV)
    ensures
        has_rank(frame_events(r, s), 0) == is_resized(r, s.screen),
        has_rank(frame_events(r, s), 1) == !r.defaults_sent,
        has_rank(frame_events(r, s), 3) == (pushed_lines(r, s).len() > 0),
        has_rank(frame_events(r, s), 4) == is_full(r, s.screen),
        has_rank(frame_events(r, s), 5) == frame_scroll(r, s.screen) is Some,
        has_rank(frame_events(r, s), 7) == (r.prev_cursor != Some(s.cursor)),
        has_rank(frame_events(r, s), 8) == (r.prev_alt != Some(s.alt_screen)),
        has_rank(frame_events(r, s), 9) == s.title is Some,
        has_rank(frame_events(r, s), 10) == s.bell,
        !has_rank(frame_events(r, s), 12),
        frame_tail(r, s) == cursor_part(r.prev_cursor, s.cursor) + mode_part(r.prev_alt, s.alt_screen)
            + title_part(s.title) + bell_part(s.bell) + seq![EventV::Flush],
{
    reveal(tail_events);
    lemma_frame_is_its_parts(r, s);
    let p = frame_parts(r, s);
    lemma_has_rank_join(p, 12, 0);
    lemma_has_rank_join(p, 12, 1);
    lemma_has_rank_join(p, 12, 3);
    lemma_has_rank_join(p, 12, 4);
    lemma_has_rank_join(p, 12, 5);
    lemma_has_rank_join(p, 12, 7);
    lemma_has_rank_join(p, 12, 8);
    lemma_has_rank_join(p, 12, 9);
    lemma_has_rank_join(p, 12, 10);
    lemma_has_rank_join(p, 12, 12);
}

/// A frame pushes no committed lines without the `scrollback` feature, nor
/// while the alternate screen is active (only the primary screen has
/// scrollback).
pub proof fn lemma_no_push_without_scrollback(r: RendererV, s: SnapshotV)
    ensures
        !r.scrollback || s.alt_screen ==> forall|i: int|
            0 <= i < frame_events(r, s).len() ==> !(#[trigger] frame_events(r, s)[i] is ScrollbackPush),
{
    lemma_frame_reports(r, s);
    if !r.scrollback || s.alt_screen {
        assert forall|i: int| 0 <= i < frame_events(r, s).len() implies !(
        #[trigger] frame_events(r, s)[i] is ScrollbackPush) by {
            if frame_events(r, s)[i] is ScrollbackPush {
                assert(frame_rank(frame_events(r, s)[i]) == 3);
            }
        }
    }
}

/// Resize sequence: a frame that acknowledges a size opens with `grid_resize`
/// of the new size, clears the grid, does not scroll, and re-sends every row
/// in order.
pub proof fn lemma_resize_repaints(r: RendererV, s: SnapshotV)
    requires
        is_resized(r, s.screen),
    ensures
        frame_events(r, s)[0] == (EventV::GridResize { cols: s.screen.cols, rows: s.screen.rows }),
        is_full(r, s.screen),
        has_rank(frame_events(r, s), 4),
        !has_rank(frame_events(r, s), 5),
        frame_rows(r, s.screen) == Seq::new(s.screen.lines.len(), |i: int| i),
{
    lemma_frame_reports(r, s);
    reveal(head_events);
    let lines = s.screen.lines;
    lemma_all_rows_changed(r.prev, lines, lines.len() as int);
    let ev = frame_events(r, s);
    let first = seq![EventV::GridResize { cols: s.screen.cols, rows: s.screen.rows }];
    assert(frame_head(r, s) == first + head_events(
        false,
        !r.defaults_sent,
        true,
        None,
        s.screen.cols,
        s.screen.rows,
        new_definitions(r.cache, frame_cache(r, s)),
        encode_lines(pushed_lines(r, s), frame_cache(r, s)),
    ));
    assert(ev[0] == frame_head(r, s)[0]);
}

proof fn lemma_order_join(p: Seq<Seq<EventV>>, m: int)
    requires
        0 <= m <= p.len(),
        forall|j: int, i: int| 0 <= j < m && 0 <= i < p[j].len() ==> frame_rank(#[trigger] p[j][i]) == j,
        forall|j: int| 0 <= j < m && j != 2 && j != 6 ==> (#[trigger] p[j]).len() <= 1,
    ensures
        in_frame_order(join_parts(p, m)),
        forall|i: int| 0 <= i < join_parts(p, m).len() ==> frame_rank(#[trigger] join_parts(p, m)[i]) < m,
    decreases m,
{
    if m > 0 {
        lemma_order_join(p, m - 1);
        assert forall|i: int| 0 <= i < p[m - 1].len() implies frame_rank(#[trigger] p[m - 1][i]) == m - 1 by {}
        lemma_order_append(join_parts(p, m - 1), p[m - 1], m - 1);
    } else {
        assert(join_parts(p, m) =~= Seq::<EventV>::empty());
    }
}

/// Every event of rank 6 in the joined parts comes from part 6, in place.
proof fn lemma_join_rank_six(p: Seq<Seq<EventV>>, m: int, i: int)
    requires
        7 <= m <= p.len(),
        forall|j: int, t: int| 0 <= j < m && 0 <= t < p[j].len() ==> frame_rank(#[trigger] p[j][t]) == j,
        forall|j: int| 0 <= j < m && j != 2 && j != 6 ==> (#[trigger] p[j]).len() <= 1,
        0 <= i < join_parts(p, m).len(),
        frame_rank(join_parts(p, m)[i]) == 6,
    ensures
        join_parts(p, 6).len() <= i < join_parts(p, 6).len() + p[6].len(),
        join_parts(p, m)[i] == p[6][i - join_parts(p, 6).len()],
    decreases m,
{
    let a = join_parts(p, m - 1);
    assert(join_parts(p, m) == a + p[m - 1]);
    if i < a.len() {
        assert(join_parts(p, m)[i] == a[i]);
        if m - 1 >= 7 {
            lemma_join_rank_six(p, m - 1, i);
        } else {
            lemma_order_join(p, 6);
            let b = join_parts(p, 6);
            assert(a == b + p[6]);
            if i < b.len() {
                assert(a[i] == b[i]);
            } else {
                assert(a[i] == p[6][i - b.len()]);
            }
        }
    } else {
        assert(join_parts(p, m)[i] == p[m - 1][i - a.len()]);
    }
}

/// Frame order: a frame is `grid_resize`? `default_colors`? `hl_attr`*
/// `scrollback_push`? `grid_clear`? `grid_scroll`? `grid_line`* `cursor`?
/// `mode`? `title`? `bell`? `flush`, with no other events. So it holds exactly
/// one `flush`, the last event; and every `hl_attr` precedes every
/// `grid_line`.
pub proof fn lemma_frame_order(r: RendererV, s: SnapshotV)
    ensures
        in_frame_order(frame_events(r, s)),
        !has_rank(frame_events(r, s), 12),
        frame_events(r, s).last() == EventV::Flush,
        forall|i: int|
            0 <= i < frame_events(r, s).len() - 1 ==> #[trigger] frame_events(r, s)[i] != EventV::Flush,
        forall|i: int, j: int|
            0 <= i < frame_events(r, s).len() && 0 <= j < frame_events(r, s).len() && #[trigger] frame_events(
                r,
                s,
            )[i] is HlAttr && #[trigger] frame_events(r, s)[j] is GridLine ==> i < j,
{
    lemma_frame_is_its_parts(r, s);
    lemma_frame_reports(r, s);
    lemma_frame_ends_with_flush(r, s);
    let p = frame_parts(r, s);
    lemma_order_join(p, 12);
    let ev = frame_events(r, s);
    assert forall|i: int| 0 <= i < ev.len() - 1 implies #[trigger] ev[i] != EventV::Flush by {
        assert(frame_rank(ev[ev.len() - 1]) == 11);
    }
    assert forall|i: int, j: int|
        0 <= i < ev.len() && 0 <= j < ev.len() && #[trigger] ev[i] is HlAttr && #[trigger] ev[j] is GridLine
            implies i < j by {
        assert(frame_rank(ev[i]) == 2 && frame_rank(ev[j]) == 6);
    }
}

/// The `grid_line`s of a frame are its re-sent rows, in order: their rows
/// strictly increase and lie within the screen (whose rows fit the wire's
/// 16-bit row numbers).
pub proof fn lemma_frame_rows_increase(r: RendererV, s: SnapshotV)
    requires
        s.screen.lines.len() <= 0x10000,
    ensures
        forall|i: int, j: int|
            0 <= i < j < frame_events(r, s).len() && #[trigger] frame_events(r, s)[i] is GridLine
                && #[trigger] frame_events(r, s)[j] is GridLine ==> frame_events(r, s)[i]->GridLine_row
                < frame_events(r, s)[j]->GridLine_row,
        forall|i: int|
            0 <= i < frame_events(r, s).len() && #[trigger] frame_events(r, s)[i] is GridLine
                ==> frame_events(r, s)[i]->GridLine_row < s.screen.lines.len(),
{
    lemma_frame_is_its_parts(r, s);
    let p = frame_parts(r, s);
    let ev = frame_events(r, s);
    let n = s.screen.lines.len() as int;
    let rows = frame_rows(r, s.screen);
    let hl = join_parts(p, 6).len();
    lemma_changed_rows_bounds(r.prev, is_full(r, s.screen), frame_scroll(r, s.screen), s.screen.lines, n);
    lemma_changed_rows_increasing(r.prev, is_full(r, s.screen), frame_scroll(r, s.screen), s.screen.lines, n);
    assert forall|i: int| 0 <= i < ev.len() && #[trigger] ev[i] is GridLine implies ev[i]->GridLine_row
        < n by {
        lemma_join_rank_six(p, 12, i);
        assert(p[6][i - hl]->GridLine_row == rows[i - hl] as u16);
    }
    assert forall|i: int, j: int|
        0 <= i < j < ev.len() && #[trigger] ev[i] is GridLine && #[trigger] ev[j] is GridLine
            implies ev[i]->GridLine_row < ev[j]->GridLine_row by {
        lemma_join_rank_six(p, 12, i);
        lemma_join_rank_six(p, 12, j);
        assert(rows[i - hl] < rows[j - hl]);
        assert(p[6][i - hl]->GridLine_row == rows[i - hl] as u16);
        assert(p[6][j - hl]->GridLine_row == rows[j - hl] as u16);
    }
}

/// Column conservation over a whole frame: every `grid_line` starts at column
/// 0 and advances the host by exactly the columns of the row it names
/// (double-width cells count two, runs count their length), for screens whose
/// rows fit the wire's 16-bit row numbers and 32-bit repeats.
pub proof fn lemma_frame_grid_lines_conserve_columns(r: RendererV, s: SnapshotV)
    requires
        s.screen.lines.len() <= 0x10000,
        forall|j: int| 0 <= j < s.screen.lines.len() ==> row_width(#[trigger] s.screen.lines[j]) <= u32::MAX,
    ensures
        forall|i: int|
            0 <= i < frame_events(r, s).len() && (#[trigger] frame_events(r, s)[i]) is GridLine ==> {
                &&& frame_events(r, s)[i]->GridLine_col == 0
                &&& frame_events(r, s)[i]->GridLine_row < s.screen.lines.len()
                &&& total_span(frame_events(r, s)[i]->GridLine_cells) == row_width(
                    s.screen.lines[frame_events(r, s)[i]->GridLine_row as int],
                )
            },
{
    lemma_frame_is_its_parts(r, s);
    let p = frame_parts(r, s);
    let ev = frame_events(r, s);
    let n = s.screen.lines.len() as int;
    let rows = frame_rows(r, s.screen);
    let hl = join_parts(p, 6).len();
    lemma_changed_rows_bounds(r.prev, is_full(r, s.screen), frame_scroll(r, s.screen), s.screen.lines, n);
    assert forall|i: int| 0 <= i < ev.len() && (#[trigger] ev[i]) is GridLine implies {
        &&& ev[i]->GridLine_col == 0
        &&& ev[i]->GridLine_row < n
        &&& total_span(ev[i]->GridLine_cells) == row_width(s.screen.lines[ev[i]->GridLine_row as int])
    } by {
        lemma_join_rank_six(p, 12, i);
        let a = i - hl;
        assert(0 <= rows[a] < n);
        assert(p[6][a]->GridLine_row == rows[a] as u16);
        lemma_frame_conserves_columns(r, s, a);
    }
}

/// The definitions of the `hl_attr` events of `events` (id and attribute
/// set), in order.
pub open spec fn hl_defs(events: Seq<EventV>) -> Seq<(u32, Attrs)>
    decreases events.len(),
{
    if events.len() == 0 {
        seq![]
    } else {
        hl_defs(events.drop_last()) + match events.last() {
            EventV::HlAttr { id, attrs } => seq![(id, attrs)],
            _ => seq![],
        }
    }
}

/// The definitions of ids `lo`, `lo + 1`, ..., `hi - 1` of `cache`, each id
/// with the set `cache` holds at it.
pub open spec fn defs_from(cache: Seq<Attrs>, lo: int, hi: int) -> Seq<(u32, Attrs)> {
    Seq::new((hi - lo) as nat, |i: int| ((lo + i) as u32, cache[lo + i]))
}

/// The `hl_attr` definitions of joined events are those of each part, in
/// order.
pub proof fn lemma_hl_defs_append(a: Seq<EventV>, b: Seq<EventV>)
    ensures
        hl_defs(a + b) == hl_defs(a) + hl_defs(b),
    decreases b.len(),
{
    if b.len() == 0 {
        assert(a + b =~= a);
        assert(hl_defs(a) + hl_defs(b) =~= hl_defs(a));
    } else {
        lemma_hl_defs_append(a, b.drop_last());
        assert((a + b).drop_last() =~= a + b.drop_last());
        assert((a + b).last() == b.last());
        assert(hl_defs(a) + hl_defs(b) =~= hl_defs(a) + hl_defs(b.drop_last()) + match b.last() {
            EventV::HlAttr { id, attrs } => seq![(id, attrs)],
            _ => seq![],
        });
    }
}

proof fn lemma_hl_defs_none(p: Seq<EventV>)
    requires
        forall|i: int| 0 <= i < p.len() ==> frame_rank(#[trigger] p[i]) != 2,
    ensures
        hl_defs(p) == Seq::<(u32, Attrs)>::empty(),
    decreases p.len(),
{
    if p.len() > 0 {
        lemma_hl_defs_none(p.drop_last());
        assert(frame_rank(p[p.len() - 1]) != 2);
    }
}

proof fn lemma_hl_defs_definitions(old: Seq<Attrs>, cache: Seq<Attrs>)
    requires
        old.len() <= cache.len() <= u32::MAX + 1,
    ensures
        hl_defs(new_definitions(old, cache)) == defs_from(cache, old.len() as int, cache.len() as int),
    decreases cache.len(),
{
    let d = new_definitions(old, cache);
    if cache.len() == old.len() {
        assert(d =~= seq![]);
        assert(defs_from(cache, old.len() as int, cache.len() as int) =~= seq![]);
    } else {
        let shorter = cache.drop_last();
        lemma_hl_defs_definitions(old, shorter);
        assert(d.drop_last() =~= new_definitions(old, shorter));
        assert(defs_from(shorter, old.len() as int, shorter.len() as int).push(
            ((cache.len() - 1) as u32, cache[cache.len() - 1]),
        ) =~= defs_from(cache, old.len() as int, cache.len() as int));
    }
}

proof fn lemma_hl_defs_join(p: Seq<Seq<EventV>>, m: int)
    requires
        0 <= m <= p.len(),
        p.len() > 2,
        forall|j: int, i: int| 0 <= j < m && 0 <= i < p[j].len() ==> frame_rank(#[trigger] p[j][i]) == j,
    ensures
        hl_defs(join_parts(p, m)) == if m > 2 {
            hl_defs(p[2])
        } else {
            Seq::<(u32, Attrs)>::empty()
        },
    decreases m,
{
    if m > 0 {
        lemma_hl_defs_join(p, m - 1);
        lemma_hl_defs_append(join_parts(p, m - 1), p[m - 1]);
        if m - 1 != 2 {
            assert forall|i: int| 0 <= i < p[m - 1].len() implies frame_rank(#[trigger] p[m - 1][i]) != 2 by {
                assert(frame_rank(p[m - 1][i]) == m - 1);
            }
            lemma_hl_defs_none(p[m - 1]);
        }
        assert(hl_defs(join_parts(p, m)) =~= if m > 2 {
            hl_defs(p[2])
        } else {
            Seq::<(u32, Attrs)>::empty()
        });
    } else {
        assert(join_parts(p, m) =~= Seq::<EventV>::empty());
    }
}

/// A frame defines the ids after those defined before it, each once, in
/// increasing order, each with the set its table holds: its `hl_attr`
/// definitions are exactly the table's new entries.
pub proof fn lemma_frame_hl_defs(r: RendererV, s: SnapshotV)
    requires
        cache_wf(r.cache),
        has_id_room(r, s),
    ensures
        hl_defs(frame_events(r, s)) == defs_from(
            frame_state(r, s).cache,
            r.cache.len() as int,
            frame_state(r, s).cache.len() as int,
        ),
        cache_wf(frame_state(r, s).cache),
        extends(frame_state(r, s).cache, r.cache),
{
    lemma_frame_cache(r, s);
    lemma_frame_is_its_parts(r, s);
    let p = frame_parts(r, s);
    lemma_hl_defs_join(p, 12);
    lemma_hl_defs_definitions(r.cache, frame_cache(r, s));
}

/// Every event of rank `k` in the joined parts comes from part `k`, in place.
proof fn lemma_join_rank(p: Seq<Seq<EventV>>, m: int, i: int, k: int)
    requires
        0 <= k < m <= p.len(),
        forall|j: int, t: int| 0 <= j < m && 0 <= t < p[j].len() ==> frame_rank(#[trigger] p[j][t]) == j,
        forall|j: int| 0 <= j < m && j != 2 && j != 6 ==> (#[trigger] p[j]).len() <= 1,
        0 <= i < join_parts(p, m).len(),
        frame_rank(join_parts(p, m)[i]) == k,
    ensures
        join_parts(p, k).len() <= i < join_parts(p, k).len() + p[k].len(),
        join_parts(p, m)[i] == p[k][i - join_parts(p, k).len()],
    decreases m,
{
    let a = join_parts(p, m - 1);
    assert(join_parts(p, m) == a + p[m - 1]);
    if i < a.len() {
        assert(join_parts(p, m)[i] == a[i]);
        if m - 1 > k {
            lemma_join_rank(p, m - 1, i, k);
        } else {
            lemma_order_join(p, m - 1);
        }
    } else {
        assert(join_parts(p, m)[i] == p[m - 1][i - a.len()]);
    }
}

/// The cursor a frame reports is the snapshot's cursor, field for field: its
/// row, column, visibility and shape, so a cursor a program hid is reported
/// hidden. It is reported exactly when it differs from the last one reported.
pub proof fn lemma_frame_reports_the_cursor(r: RendererV, s: SnapshotV)
    ensures
        forall|i: int|
            0 <= i < frame_events(r, s).len() && (#[trigger] frame_events(r, s)[i]) is Cursor
                ==> frame_events(r, s)[i] == (EventV::Cursor {
                row: s.cursor.row,
                col: s.cursor.col,
                visible: s.cursor.visible,
                shape: s.cursor.shape,
            }),
        (exists|i: int| 0 <= i < frame_events(r, s).len() && (#[trigger] frame_events(r, s)[i]) is Cursor)
            <==> r.prev_cursor != Some(s.cursor),
{
    lemma_frame_is_its_parts(r, s);
    lemma_frame_reports(r, s);
    let p = frame_parts(r, s);
    let ev = frame_events(r, s);
    assert forall|i: int| 0 <= i < ev.len() && (#[trigger] ev[i]) is Cursor implies ev[i] == (
    EventV::Cursor {
        row: s.cursor.row,
        col: s.cursor.col,
        visible: s.cursor.visible,
        shape: s.cursor.shape,
    }) by {
        assert(frame_rank(ev[i]) == 7);
        lemma_join_rank(p, 12, i, 7);
    }
    if r.prev_cursor != Some(s.cursor) {
        assert(has_rank(ev, 7));
        let i = choose|i: int| 0 <= i < ev.len() && frame_rank(#[trigger] ev[i]) == 7;
        assert(ev[i] is Cursor);
    }
    if exists|i: int| 0 <= i < ev.len() && (#[trigger] ev[i]) is Cursor {
        let i = choose|i: int| 0 <= i < ev.len() && (#[trigger] ev[i]) is Cursor;
        assert(frame_rank(ev[i]) == 7);
    }
}

/// What a frame reports carries the snapshot's values: `grid_resize` the
/// screen's size; `default_colors` the defaults (light gray `0xd0d0d0` on
/// black, special color light gray); `mode` the snapshot's alt-screen state;
/// `title` the snapshot's title; `grid_scroll` an upward scroll of the whole
/// screen (rows 0 to `rows`, columns 0 to `cols`) by the detected shift.
pub proof fn lemma_frame_reports_the_snapshot(r: RendererV, s: SnapshotV)
    ensures
        forall|i: int|
            0 <= i < frame_events(r, s).len() ==> {
                &&& (#[trigger] frame_events(r, s)[i]) is GridResize ==> frame_events(r, s)[i]
                    == (EventV::GridResize { cols: s.screen.cols, rows: s.screen.rows })
                &&& frame_events(r, s)[i] is DefaultColors ==> frame_events(r, s)[i]
                    == (EventV::DefaultColors { fg: 0xd0d0d0, bg: 0x000000, sp: 0xd0d0d0 })
                &&& frame_events(r, s)[i] is Mode ==> frame_events(r, s)[i] == (EventV::Mode {
                    alt_screen: s.alt_screen,
                })
                &&& frame_events(r, s)[i] is Title ==> s.title is Some && frame_events(r, s)[i]
                    == (EventV::Title { text: s.title->0 })
                &&& frame_events(r, s)[i] is GridScroll ==> frame_scroll(r, s.screen) is Some
                    && frame_events(r, s)[i] == (EventV::GridScroll {
                    top: 0,
                    bot: s.screen.rows,
                    left: 0,
                    right: s.screen.cols,
                    rows: frame_scroll(r, s.screen)->0 as i32,
                    cols: 0,
                })
            },
{
    lemma_frame_is_its_parts(r, s);
    let p = frame_parts(r, s);
    let ev = frame_events(r, s);
    assert forall|i: int| 0 <= i < ev.len() implies {
        &&& (#[trigger] ev[i]) is GridResize ==> ev[i] == (EventV::GridResize {
            cols: s.screen.cols,
            rows: s.screen.rows,
        })
        &&& ev[i] is DefaultColors ==> ev[i] == (EventV::DefaultColors {
            fg: 0xd0d0d0,
            bg: 0x000000,
            sp: 0xd0d0d0,
        })
        &&& ev[i] is Mode ==> ev[i] == (EventV::Mode { alt_screen: s.alt_screen })
        &&& ev[i] is Title ==> s.title is Some && ev[i] == (EventV::Title { text: s.title->0 })
        &&& ev[i] is GridScroll ==> frame_scroll(r, s.screen) is Some && ev[i] == (EventV::GridScroll {
            top: 0,
            bot: s.screen.rows,
            left: 0,
            right: s.screen.cols,
            rows: frame_scroll(r, s.screen)->0 as i32,
            cols: 0,
        })
    } by {
        let k = frame_rank(ev[i]);
        if 0 <= k < 12 {
            lemma_join_rank(p, 12, i, k);
        }
    }
}

/// There are ids left for every cell a frame may intern.
pub open spec fn has_id_room(r: RendererV, s: SnapshotV) -> bool {
    r.cache.len() + cell_count(pushed_lines(r, s)) + cell_count(s.screen.lines) <= u32::MAX
}

/// Number of cells across `lines`, saturating at `u64::MAX`.
fn count_cells(lines: &Vec<Vec<RowCell>>) -> (count: u64)
    ensures
        count == if cell_count(lines_view(lines@)) <= u64::MAX {
            cell_count(lines_view(lines@))
        } else {
            u64::MAX as nat
        },
{
    let ghost lv = lines_view(lines@);
    let n = lines.len();
    let mut count: u64 = 0;
    let mut i: usize = 0;
    proof {
        assert(lv.take(0) =~= seq![]);
    }
    while i < n
        invariant
            n == lines@.len(),
            lv == lines_view(lines@),
            i <= n,
            count == if cell_count(lv.take(i as int)) <= u64::MAX {
                cell_count(lv.take(i as int))
            } else {
                u64::MAX as nat
            },
        decreases n - i,
    {
        proof {
            lemma_cell_count_prefix(lv, i as int);
            assert(lv[i as int].len() == lines@[i as int]@.len());
        }
        let len = lines[i].len() as u64;
        if count > u64::MAX - len {
            count = u64::MAX;
        } else {
            count = count + len;
        }
        i = i + 1;
    }
    proof {
        assert(lv.take(n as int) =~= lv);
    }
    count
}

/// Decide how a frame relates to the previous screen: whether the size
/// changed, whether everything is repainted, and the scroll to emit.
fn plan_frame(prev: &Option<Screen>, resize_pending: bool, screen: &Screen) -> (plan: (
    bool,
    bool,
    Option<u16>,
))
    ensures
        ({
            let r = RendererV {
                prev: match prev {
                    Some(p) => Some(p@),
                    None => None,
                },
                cache: seq![],
                prev_cursor: None,
                prev_alt: None,
                defaults_sent: false,
                scrollback: false,
                resize_pending,
            };
            &&& plan.0 == is_resized(r, screen@)
            &&& plan.1 == is_full(r, screen@)
            &&& plan.2 == frame_scroll(r, screen@)
        }),
{
    let resized = match prev {
        Some(p) => p.cols != screen.cols || p.rows != screen.rows || resize_pending,
        None => false,
    };
    let full = prev.is_none() || resized;
    let scroll = if full {
        None
    } else {
        match prev {
            Some(p) => detect_scroll_up(p, screen),
            None => None,
        }
    };
    (resized, full, scroll)
}

/// Intern and encode what a frame sends: the committed lines, then the rows
/// the host does not already hold. Returns the new `hl_attr` definitions, the
/// committed lines' cells, and the `grid_line` events.
fn encode_frame(
    prev: &Option<Screen>,
    full: bool,
    scroll: Option<u16>,
    committed: &Vec<Vec<RowCell>>,
    snapshot: &Snapshot,
    hlcache: &mut HlCache,
) -> (encoded: (Vec<Event>, Vec<Vec<Cell>>, Vec<Event>))
    requires
        old(hlcache).wf(),
        old(hlcache)@.len() + cell_count(lines_view(committed@)) + cell_count(snapshot@.screen.lines)
            <= u32::MAX,
    ensures
        ({
            let pv = match prev {
                Some(p) => Some(p@),
                None => None,
            };
            let lines = snapshot@.screen.lines;
            let rows = changed_rows(pv, full, scroll, lines, lines.len() as int);
            let cache = final(hlcache)@;
            &&& final(hlcache).wf()
            &&& cache == intern_rows(intern_rows(old(hlcache)@, lines_view(committed@)), lines_at(lines, rows))
            &&& events_view(encoded.0@) == new_definitions(old(hlcache)@, cache)
            &&& cell_lines_view(encoded.1@) == encode_lines(lines_view(committed@), cache)
            &&& events_view(encoded.2@) == grid_lines(lines, rows, cache)
        }),
{
    let ghost c0 = hlcache@;
    let mut hl_attrs: Vec<Event> = Vec::new();
    proof {
        lemma_events_empty(hl_attrs@);
    }
    let scrollback = encode_rows(committed, hlcache, &mut hl_attrs);
    let ghost c1 = hlcache@;
    let lines = diff_rows(prev, full, scroll, &snapshot.screen.lines, hlcache, &mut hl_attrs);
    let ghost cache = hlcache@;
    proof {
        lemma_encoded_stable(lines_view(committed@), c1, cache);
        assert(new_definitions(c0, cache) =~= new_definitions(c0, c1) + new_definitions(c1, cache));
        assert(events_view(hl_attrs@) =~= new_definitions(c0, cache));
    }
    (hl_attrs, scrollback, lines)
}

/// Append the events that precede the re-sent rows.
fn push_head(
    resized: bool,
    send_defaults: bool,
    full: bool,
    scroll: Option<u16>,
    cols: u16,
    rows: u16,
    definitions: &mut Vec<Event>,
    scrollback: Vec<Vec<Cell>>,
    events: &mut Vec<Event>,
)
    ensures
        events_view(final(events)@) == events_view(old(events)@) + head_events(
            resized,
            send_defaults,
            full,
            scroll,
            cols,
            rows,
            events_view(old(definitions)@),
            cell_lines_view(scrollback@),
        ),
{
    let ghost start = events_view(events@);
    let ghost sb = cell_lines_view(scrollback@);
    if resized {
        push_event(events, Event::GridResize { cols, rows });
    }
    let ghost s1 = events_view(events@);
    if send_defaults {
        push_event(events, Event::DefaultColors { fg: DEFAULT_FG, bg: DEFAULT_BG, sp: DEFAULT_FG });
    }
    let ghost s2 = events_view(events@);
    append_events(events, definitions);
    let ghost s3 = events_view(events@);
    if scrollback.len() > 0 {
        push_event(events, Event::ScrollbackPush { lines: scrollback });
    }
    let ghost s4 = events_view(events@);
    if full {
        push_event(events, Event::GridClear);
    }
    let ghost s5 = events_view(events@);
    match scroll {
        Some(k) => {
            push_event(
                events,
                Event::GridScroll { top: 0, bot: rows, left: 0, right: cols, rows: k as i32, cols: 0 },
            );
        },
        None => {},
    }
    proof {
        reveal(head_events);
        assert(events_view(events@) =~= start + head_events(
            resized,
            send_defaults,
            full,
            scroll,
            cols,
            rows,
            events_view(old(definitions)@),
            sb,
        ));
    }
}

/// Append the events that follow the re-sent rows.
#[verifier::rlimit(60)]
fn push_tail(
    prev_cursor: Option<Cursor>,
    prev_alt: Option<bool>,
    snapshot: &Snapshot,
    events: &mut Vec<Event>,
)
    ensures
        events_view(final(events)@) == events_view(old(events)@) + tail_events(
            prev_cursor,
            prev_alt,
            snapshot.cursor,
            snapshot.alt_screen,
            snapshot@.title,
            snapshot.bell,
        ),
{
    let ghost start = events_view(events@);
    let cursor = snapshot.cursor;
    let cursor_moved = match prev_cursor {
        Some(c) => c != cursor,
        None => true,
    };
    if cursor_moved {
        push_event(
            events,
            Event::Cursor { row: cursor.row, col: cursor.col, visible: cursor.visible, shape: cursor.shape },
        );
    }
    proof {
        assert(events_view(events@) =~= start + cursor_part(prev_cursor, cursor));
    }
    let ghost step = events_view(events@);
    let mode_changed = match prev_alt {
        Some(alt) => alt != snapshot.alt_screen,
        None => true,
    };
    if mode_changed {
        push_event(events, Event::Mode { alt_screen: snapshot.alt_screen });
    }
    proof {
        assert(events_view(events@) =~= step + mode_part(prev_alt, snapshot.alt_screen));
    }
    let ghost step = events_view(events@);
    match &snapshot.title {
        Some(title) => {
            push_event(events, Event::Title { text: title.clone() });
        },
        None => {},
    }
    proof {
        assert(events_view(events@) =~= step + title_part(snapshot@.title));
    }
    let ghost step = events_view(events@);
    if snapshot.bell {
        push_event(events, Event::Bell);
    }
    proof {
        assert(events_view(events@) =~= step + bell_part(snapshot.bell));
    }
    let ghost step = events_view(events@);
    push_event(events, Event::Flush);
    proof {
        reveal(tail_events);
        assert(events_view(events@) =~= start + tail_events(
            prev_cursor,
            prev_alt,
            snapshot.cursor,
            snapshot.alt_screen,
            snapshot@.title,
            snapshot.bell,
        ));
    }
}

/// A renderer that has drawn nothing yet, pushing committed lines as
/// `scrollback_push` exactly when `scrollback` is set.
pub open spec fn initial_renderer(scrollback: bool) -> RendererV {
    RendererV {
        prev: None,
        cache: seq![default_attrs()],
        prev_cursor: None,
        prev_alt: None,
        defaults_sent: false,
        scrollback,
        resize_pending: false,
    }
}

impl Default for Renderer {
    /// A renderer that has drawn nothing yet, for a session that does not
    /// advertise `scrollback`.
    fn default() -> (renderer: Self)
        ensures
            cache_wf(renderer@.cache),
            renderer@ == initial_renderer(false),
    {
        Renderer::with_scrollback(false)
    }
}

impl Renderer {
    /// The renderer's id table is valid.
    pub open spec fn wf(&self) -> bool {
        cache_wf(self@.cache)
    }

    /// A renderer that has drawn nothing yet; `scrollback` says whether the
    /// session advertised the `scrollback` feature, and so whether committed
    /// lines are pushed as `scrollback_push`.
    pub fn with_scrollback(scrollback: bool) -> (renderer: Self)
        ensures
            renderer.wf(),
            renderer@ == initial_renderer(scrollback),
    {
        Renderer {
            prev: None,
            hlcache: HlCache::default(),
            prev_cursor: None,
            prev_alt: None,
            defaults_sent: false,
            scrollback,
            resize_pending: false,
        }
    }

    /// Note that the host asked for a resize: the next frame acknowledges the
    /// size with `grid_resize` and repaints in full, even when the size did not
    /// change.
    pub fn note_resize(&mut self)
        ensures
            final(self)@ == (RendererV { resize_pending: true, ..old(self)@ }),
    {
        self.resize_pending = true;
    }

    /// Whether rendering `snapshot` cannot exhaust the 32-bit highlight ids.
    pub fn has_id_room(&self, snapshot: &Snapshot) -> (room: bool)
        ensures
            room == has_id_room(self@, snapshot@),
    {
        let used = self.hlcache.len() as u64;
        let committed = if self.scrollback && !snapshot.alt_screen {
            count_cells(&snapshot.committed)
        } else {
            0
        };
        let live = count_cells(&snapshot.screen.lines);
        let limit = u32::MAX as u64;
        used <= limit && committed <= limit - used && live <= limit - used - committed
    }

    /// Render one frame: only changed rows become `grid_line`, new highlights
    /// are defined first, and messages follow the protocol's frame order.
    #[verifier::spinoff_prover]
    pub fn frame(&mut self, snapshot: &Snapshot) -> (events: Vec<Event>)
        requires
            old(self).wf(),
            has_id_room(old(self)@, snapshot@),
        ensures
            final(self).wf(),
            final(self)@ == frame_state(old(self)@, snapshot@),
            events_view(events@) == frame_events(old(self)@, snapshot@),
    {
        let ghost r = self@;
        let ghost sv = snapshot@;
        let screen = &snapshot.screen;
        let (resized, full, scroll) = plan_frame(&self.prev, self.resize_pending, screen);

        // Intern the pushed lines first, then the re-sent rows; interning
        // produces the new hl_attr definitions.
        let no_lines: Vec<Vec<RowCell>> = Vec::new();
        let committed = if self.scrollback && !snapshot.alt_screen {
            &snapshot.committed
        } else {
            &no_lines
        };
        proof {
            assert(lines_view(no_lines@) =~= Seq::<Seq<RowCellV>>::empty());
            assert(lines_view(committed@) == pushed_lines(r, sv));
        }
        let (mut hl_attrs, scrollback, mut lines) = encode_frame(
            &self.prev,
            full,
            scroll,
            committed,
            snapshot,
            &mut self.hlcache,
        );
        proof {
            assert(self.hlcache@ == frame_cache(r, sv));
        }

        // Assemble in the protocol's frame order.
        let mut events: Vec<Event> = Vec::new();
        proof {
            lemma_events_empty(events@);
            assert(events_view(hl_attrs@) == new_definitions(r.cache, frame_cache(r, sv)));
            assert(cell_lines_view(scrollback@) == encode_lines(pushed_lines(r, sv), frame_cache(r, sv)));
        }
        push_head(
            resized,
            !self.defaults_sent,
            full,
            scroll,
            screen.cols,
            screen.rows,
            &mut hl_attrs,
            scrollback,
            &mut events,
        );
        self.defaults_sent = true;
        self.resize_pending = false;
        proof {
            assert(events_view(events@) == frame_head(r, sv));
        }
        let ghost step = events_view(events@);
        let ghost body = events_view(lines@);
        append_events(&mut events, &mut lines);
        push_tail(self.prev_cursor, self.prev_alt, snapshot, &mut events);
        self.prev_cursor = Some(snapshot.cursor);
        self.prev_alt = Some(snapshot.alt_screen);
        self.prev = Some(screen.clone());
        proof {
            assert(body == grid_lines(sv.screen.lines, frame_rows(r, sv.screen), frame_cache(r, sv)));
            assert(events_view(events@) == frame_events(r, sv));
        }
        events
    }
}

} // verus!
