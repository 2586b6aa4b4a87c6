//! The host side of the protocol, as a model: what a host holds after applying
//! the events it receives, and the proof that applying each frame's events
//! reconstructs the emulated screen.
//!
//! The host keeps the live grid as rows of `(text, hl_id)` columns, the
//! committed scrollback above it, and the highlight definitions it has been
//! sent. It shifts rows on `grid_scroll` (the vacated rows keep their stale
//! content), clears rows on `grid_clear` and `grid_resize`, overwrites a row
//! from `col` on `grid_line`, and appends `scrollback_push` lines.

use vstd::prelude::*;

use crate::hlcache::{cache_wf, extends, id_of, lemma_id_of, new_definitions};
use crate::protocol::{default_attrs, Attrs, CellV, EventV};
use crate::render::{
    all_defined, baseline, changed_rows, compress_spec, decode_cells, encode_lines, expand_row,
    frame_cache, frame_events, frame_head, frame_rows, frame_scroll, frame_state, frame_tail,
    grid_lines, has_id_room, head_events, is_full, is_resized, lemma_changed_rows_bounds,
    lemma_changed_rows_contains, lemma_compress_roundtrip, lemma_expand_len, lemma_expand_stable,
    lemma_frame_cache, lemma_frame_hl_defs, hl_defs, defs_from, lemma_hl_defs_append, lines_at, pushed_lines, row_unchanged, row_width, tail_events, Column, Cursor, RendererV,
    RowCellV, SnapshotV,
};
use crate::hlcache::lemma_id_of_extends;

verus! {

/// What a host holds: the live grid, its committed scrollback, and the
/// highlight definitions it has received.
pub struct HostV {
    pub rows: Seq<Seq<Column>>,
    pub scrollback: Seq<Seq<Column>>,
    pub defs: Map<u32, Attrs>,
}

/// `count` empty rows.
pub open spec fn blank_rows(count: nat) -> Seq<Seq<Column>> {
    Seq::new(count, |_i: int| Seq::<Column>::empty())
}

/// The columns of each encoded line, as the host decodes them.
pub open spec fn decode_lines(lines: Seq<Seq<CellV>>) -> Seq<Seq<Column>> {
    lines.map_values(|l: Seq<CellV>| decode_cells(l, 0))
}

/// The host state after one event.
pub open spec fn apply_event(h: HostV, e: EventV) -> HostV {
    match e {
        EventV::GridResize { rows, .. } => HostV { rows: blank_rows(rows as nat), ..h },
        EventV::HlAttr { id, attrs } => HostV { defs: h.defs.insert(id, attrs), ..h },
        EventV::ScrollbackPush { lines } => HostV {
            scrollback: h.scrollback + decode_lines(lines),
            ..h
        },
        EventV::GridClear => HostV { rows: blank_rows(h.rows.len()), ..h },
        EventV::GridScroll { top, bot, rows: k, .. } => HostV {
            rows: Seq::new(
                h.rows.len(),
                |r: int|
                    if top <= r < bot && top <= r + k < bot {
                        h.rows[r + k]
                    } else {
                        h.rows[r]
                    },
            ),
            ..h
        },
        EventV::GridLine { row, col, cells } => if row < h.rows.len() {
            HostV {
                rows: h.rows.update(
                    row as int,
                    h.rows[row as int].take(col as int) + decode_cells(cells, 0),
                ),
                ..h
            }
        } else {
            h
        },
        _ => h,
    }
}

/// The host state after applying `events` in order.
pub open spec fn apply_events(h: HostV, events: Seq<EventV>) -> HostV
    decreases events.len(),
{
    if events.len() == 0 {
        h
    } else {
        apply_event(apply_events(h, events.drop_last()), events.last())
    }
}

/// Applying two batches of events is applying their concatenation.
pub proof fn lemma_apply_append(h: HostV, a: Seq<EventV>, b: Seq<EventV>)
    ensures
        apply_events(h, a + b) == apply_events(apply_events(h, a), b),
    decreases b.len(),
{
    if b.len() == 0 {
        assert(a + b =~= a);
    } else {
        assert((a + b).drop_last() =~= a + b.drop_last());
        assert((a + b).last() == b.last());
        lemma_apply_append(h, a, b.drop_last());
    }
}

/// The attribute set a host gives a highlight id: id 0 is the default set.
pub open spec fn resolve(defs: Map<u32, Attrs>, id: u32) -> Attrs {
    if id == 0 {
        default_attrs()
    } else {
        defs[id]
    }
}

/// The columns of a row as the host renders them: text with attribute set.
pub open spec fn resolve_row(columns: Seq<Column>, defs: Map<u32, Attrs>) -> Seq<(Seq<char>, Attrs)> {
    columns.map_values(|c: Column| (c.0, resolve(defs, c.1)))
}

/// The columns of an emulated row as text with attribute set, a double-width
/// cell followed by an empty spacer with the same attributes.
pub open spec fn styled_row(row: Seq<RowCellV>) -> Seq<(Seq<char>, Attrs)>
    decreases row.len(),
{
    if row.len() == 0 {
        seq![]
    } else {
        let c = row.last();
        styled_row(row.drop_last()) + if c.width == 2 {
            seq![(c.text, c.attrs), (Seq::<char>::empty(), c.attrs)]
        } else {
            seq![(c.text, c.attrs)]
        }
    }
}

/// The host's definitions agree with the renderer's id table.
pub open spec fn defs_agree(defs: Map<u32, Attrs>, cache: Seq<Attrs>) -> bool {
    forall|id: u32| 0 < id < cache.len() ==> #[trigger] defs.contains_key(id) && defs[id] == cache[id as int]
}

/// The columns of each row, ids taken from `cache`.
pub open spec fn expand_lines(lines: Seq<Seq<RowCellV>>, cache: Seq<Attrs>) -> Seq<Seq<Column>> {
    lines.map_values(|l: Seq<RowCellV>| expand_row(l, cache))
}

/// A host resolves a row expanded with a valid id table, whose definitions it
/// holds, back to the row's text and attribute sets.
pub proof fn lemma_resolve_expanded(row: Seq<RowCellV>, cache: Seq<Attrs>, defs: Map<u32, Attrs>)
    requires
        cache_wf(cache),
        defs_agree(defs, cache),
        row_defined(row, cache),
    ensures
        resolve_row(expand_row(row, cache), defs) == styled_row(row),
    decreases row.len(),
{
    if row.len() > 0 {
        let prefix = row.drop_last();
        assert forall|k: int| 0 <= k < prefix.len() implies cache.contains(#[trigger] prefix[k].attrs) by {
            assert(prefix[k] == row[k]);
        }
        lemma_resolve_expanded(prefix, cache, defs);
        let c = row.last();
        assert(cache.contains(row[row.len() - 1].attrs));
        let i = choose|i: int| 0 <= i < cache.len() && cache[i] == c.attrs;
        lemma_id_of(cache, i);
        let id = id_of(cache, c.attrs);
        assert((i as u32) as int == i);
        if i > 0 {
            assert(defs.contains_key(i as u32));
            assert(defs[i as u32] == cache[i]);
        }
        assert(resolve(defs, id as u32) == c.attrs);
        assert(resolve_row(expand_row(row, cache), defs) =~= resolve_row(expand_row(prefix, cache), defs)
            + resolve_row(crate::render::cell_columns(c, cache), defs));
    }
}

/// Whether an event leaves the host's grid, scrollback and definitions alone.
pub open spec fn is_passive(e: EventV) -> bool {
    match e {
        EventV::GridResize { .. } => false,
        EventV::HlAttr { .. } => false,
        EventV::ScrollbackPush { .. } => false,
        EventV::GridClear => false,
        EventV::GridScroll { .. } => false,
        EventV::GridLine { .. } => false,
        _ => true,
    }
}

/// Passive events change nothing the host holds.
pub proof fn lemma_apply_passive(h: HostV, events: Seq<EventV>)
    requires
        forall|i: int| 0 <= i < events.len() ==> is_passive(#[trigger] events[i]),
    ensures
        apply_events(h, events) == h,
    decreases events.len(),
{
    if events.len() > 0 {
        let prefix = events.drop_last();
        assert forall|i: int| 0 <= i < prefix.len() implies is_passive(#[trigger] prefix[i]) by {
            assert(prefix[i] == events[i]);
        }
        lemma_apply_passive(h, prefix);
        assert(is_passive(events[events.len() - 1]));
    }
}

/// Applying the `hl_attr` definitions of new ids defines exactly those ids.
pub proof fn lemma_apply_definitions(h: HostV, old: Seq<Attrs>, cache: Seq<Attrs>)
    requires
        old.len() <= cache.len() <= u32::MAX,
    ensures
        apply_events(h, new_definitions(old, cache)).rows == h.rows,
        apply_events(h, new_definitions(old, cache)).scrollback == h.scrollback,
        forall|id: u32|
            old.len() <= id < cache.len() ==> #[trigger] apply_events(h, new_definitions(old, cache)).defs.contains_key(id)
                && apply_events(h, new_definitions(old, cache)).defs[id] == cache[id as int],
        forall|id: u32|
            !(old.len() <= id < cache.len()) && h.defs.contains_key(id) ==> #[trigger] apply_events(
                h,
                new_definitions(old, cache),
            ).defs.contains_key(id) && apply_events(h, new_definitions(old, cache)).defs[id] == h.defs[id],
    decreases cache.len(),
{
    if cache.len() == old.len() {
        assert(new_definitions(old, cache) =~= seq![]);
    } else {
        let shorter = cache.drop_last();
        assert(new_definitions(old, cache).drop_last() =~= new_definitions(old, shorter));
        lemma_apply_definitions(h, old, shorter);
        let last = new_definitions(old, cache).last();
        assert(last == EventV::HlAttr { id: (cache.len() - 1) as u32, attrs: cache.last() });
        let h1 = apply_events(h, new_definitions(old, shorter));
        let h2 = apply_events(h, new_definitions(old, cache));
        assert(h2 == apply_event(h1, last));
        assert forall|id: u32| old.len() <= id < cache.len() implies #[trigger] h2.defs.contains_key(id)
            && h2.defs[id] == cache[id as int] by {
            if id < cache.len() - 1 {
                assert(shorter[id as int] == cache[id as int]);
                assert(h1.defs.contains_key(id));
            } else {
                assert(id == (cache.len() - 1) as u32);
                assert(cache[id as int] == cache.last());
            }
        }
    }
}

/// Applying `grid_line`s overwrites each listed row with its expanded
/// columns and leaves every other row alone.
pub proof fn lemma_apply_grid_lines(
    h: HostV,
    lines: Seq<Seq<RowCellV>>,
    rows: Seq<int>,
    cache: Seq<Attrs>,
)
    requires
        h.rows.len() <= 0x10000,
        forall|a: int| 0 <= a < rows.len() ==> 0 <= #[trigger] rows[a] < h.rows.len() && rows[a]
            < lines.len(),
        forall|i: int| 0 <= i < lines.len() ==> row_width(#[trigger] lines[i]) <= u32::MAX,
    ensures
        apply_events(h, grid_lines(lines, rows, cache)).rows.len() == h.rows.len(),
        apply_events(h, grid_lines(lines, rows, cache)).defs == h.defs,
        apply_events(h, grid_lines(lines, rows, cache)).scrollback == h.scrollback,
        forall|i: int|
            0 <= i < h.rows.len() ==> #[trigger] apply_events(h, grid_lines(lines, rows, cache)).rows[i]
                == if rows.contains(i) {
                expand_row(lines[i], cache)
            } else {
                h.rows[i]
            },
    decreases rows.len(),
{
    if rows.len() == 0 {
        assert(grid_lines(lines, rows, cache) =~= seq![]);
    } else {
        let prefix = rows.drop_last();
        assert forall|a: int| 0 <= a < prefix.len() implies 0 <= #[trigger] prefix[a] < h.rows.len()
            && prefix[a] < lines.len() by {
            assert(prefix[a] == rows[a]);
        }
        lemma_apply_grid_lines(h, lines, prefix, cache);
        assert(grid_lines(lines, rows, cache).drop_last() =~= grid_lines(lines, prefix, cache));
        let i = rows.last();
        assert(0 <= rows[rows.len() - 1] < h.rows.len());
        let columns = expand_row(lines[i], cache);
        lemma_expand_len(lines[i], cache);
        lemma_compress_roundtrip(columns, 0);
        let h1 = apply_events(h, grid_lines(lines, prefix, cache));
        let e = grid_lines(lines, rows, cache).last();
        assert(e == EventV::GridLine { row: i as u16, col: 0, cells: compress_spec(columns) });
        assert((i as u16) as int == i);
        let h2 = apply_events(h, grid_lines(lines, rows, cache));
        assert(h2 == apply_event(h1, e));
        assert(h1.rows[i].take(0) + decode_cells(compress_spec(columns), 0) =~= columns);
        assert forall|j: int| 0 <= j < h.rows.len() implies #[trigger] h2.rows[j] == if rows.contains(j) {
            expand_row(lines[j], cache)
        } else {
            h.rows[j]
        } by {
            if j != i {
                if prefix.contains(j) {
                    let a = choose|a: int| 0 <= a < prefix.len() && prefix[a] == j;
                    assert(rows[a] == j);
                }
                if rows.contains(j) {
                    let a = choose|a: int| 0 <= a < rows.len() && rows[a] == j;
                    assert(a != rows.len() - 1);
                    assert(prefix[a] == j);
                }
            } else {
                assert(rows[rows.len() - 1] == j);
            }
        }
    }
}

proof fn lemma_apply_single(h: HostV, e: EventV)
    ensures
        apply_events(h, seq![e]) == apply_event(h, e),
{
    assert(seq![e].drop_last() =~= Seq::<EventV>::empty());
    assert(apply_events(h, Seq::<EventV>::empty()) == h);
    assert(seq![e].last() == e);
}

proof fn lemma_apply_opt(h: HostV, part: Seq<EventV>)
    requires
        part.len() <= 1,
    ensures
        part.len() == 0 ==> apply_events(h, part) == h,
        part.len() == 1 ==> apply_events(h, part) == apply_event(h, part[0]),
{
    if part.len() == 1 {
        assert(part =~= seq![part[0]]);
        lemma_apply_single(h, part[0]);
    }
}

/// The host state after the part of a frame before its re-sent rows.
#[verifier::spinoff_prover]
pub proof fn lemma_apply_head(
    h: HostV,
    resized: bool,
    send_defaults: bool,
    full: bool,
    scroll: Option<u16>,
    cols: u16,
    rows: u16,
    old: Seq<Attrs>,
    cache: Seq<Attrs>,
    scrollback: Seq<Seq<CellV>>,
)
    requires
        old.len() <= cache.len() <= u32::MAX,
    ensures
        ({
            let h2 = apply_events(
                h,
                head_events(
                    resized,
                    send_defaults,
                    full,
                    scroll,
                    cols,
                    rows,
                    new_definitions(old, cache),
                    scrollback,
                ),
            );
            let r1 = if resized {
                blank_rows(rows as nat)
            } else {
                h.rows
            };
            let r2 = if full {
                blank_rows(r1.len())
            } else {
                r1
            };
            &&& h2.scrollback == h.scrollback + decode_lines(scrollback)
            &&& forall|id: u32|
                old.len() <= id < cache.len() ==> #[trigger] h2.defs.contains_key(id) && h2.defs[id]
                    == cache[id as int]
            &&& forall|id: u32|
                !(old.len() <= id < cache.len()) && h.defs.contains_key(id) ==> #[trigger] h2.defs.contains_key(id)
                    && h2.defs[id] == h.defs[id]
            &&& h2.rows.len() == r2.len()
            &&& forall|i: int|
                0 <= i < r2.len() ==> #[trigger] h2.rows[i] == match scroll {
                    Some(k) => if i < rows && i + k < rows {
                        r2[i + k]
                    } else {
                        r2[i]
                    },
                    None => r2[i],
                }
        }),
{
    reveal(head_events);
    let defs = new_definitions(old, cache);
    let pa: Seq<EventV> = if resized {
        seq![EventV::GridResize { cols, rows }]
    } else {
        seq![]
    };
    let pb: Seq<EventV> = if send_defaults {
        seq![EventV::DefaultColors { fg: crate::render::DEFAULT_FG, bg: crate::render::DEFAULT_BG, sp: crate::render::DEFAULT_FG }]
    } else {
        seq![]
    };
    let pe: Seq<EventV> = if scrollback.len() > 0 {
        seq![EventV::ScrollbackPush { lines: scrollback }]
    } else {
        seq![]
    };
    let pf: Seq<EventV> = if full {
        seq![EventV::GridClear]
    } else {
        seq![]
    };
    let pg: Seq<EventV> = match scroll {
        Some(k) => seq![
            EventV::GridScroll { top: 0, bot: rows, left: 0, right: cols, rows: k as i32, cols: 0 },
        ],
        None => seq![],
    };
    let all = head_events(resized, send_defaults, full, scroll, cols, rows, defs, scrollback);
    assert(all == pa + pb + defs + pe + pf + pg);
    lemma_apply_append(h, pa + pb + defs + pe + pf, pg);
    lemma_apply_append(h, pa + pb + defs + pe, pf);
    lemma_apply_append(h, pa + pb + defs, pe);
    lemma_apply_append(h, pa + pb, defs);
    lemma_apply_append(h, pa, pb);
    lemma_apply_opt(h, pa);
    let ha = apply_events(h, pa);
    lemma_apply_opt(ha, pb);
    let hb = apply_events(ha, pb);
    assert(hb == ha);
    lemma_apply_definitions(hb, old, cache);
    let hd = apply_events(hb, defs);
    lemma_apply_opt(hd, pe);
    let he = apply_events(hd, pe);
    if scrollback.len() == 0 {
        assert(decode_lines(scrollback) =~= Seq::<Seq<Column>>::empty());
        assert(h.scrollback + decode_lines(scrollback) =~= h.scrollback);
    }
    lemma_apply_opt(he, pf);
    let hf = apply_events(he, pf);
    lemma_apply_opt(hf, pg);
    let hg = apply_events(hf, pg);
    assert(hg == apply_events(h, all));
    let r1 = if resized {
        blank_rows(rows as nat)
    } else {
        h.rows
    };
    let r2 = if full {
        blank_rows(r1.len())
    } else {
        r1
    };
    assert(ha.rows == r1);
    assert(hd.rows == r1);
    assert(he.rows == r1);
    assert(hf.rows == r2);
    assert(hg.rows.len() == r2.len());
    match scroll {
        Some(k) => {
            assert(pg[0] == EventV::GridScroll {
                top: 0,
                bot: rows,
                left: 0,
                right: cols,
                rows: k as i32,
                cols: 0,
            });
            assert((k as i32) as int == k as int);
            assert forall|i: int| 0 <= i < r2.len() implies #[trigger] hg.rows[i] == if i < rows && i + k
                < rows {
                r2[i + k]
            } else {
                r2[i]
            } by {}
        },
        None => {
            assert(hg.rows == r2);
        },
    }
    assert(he.scrollback == h.scrollback + decode_lines(scrollback));
    assert(hg.scrollback == he.scrollback);
    assert(hg.defs == hd.defs);
    assert(hg.scrollback == h.scrollback + decode_lines(scrollback));
    assert(forall|id: u32|
                old.len() <= id < cache.len() ==> #[trigger] hg.defs.contains_key(id) && hg.defs[id]
                    == cache[id as int]);
    assert(ha.defs == h.defs);
    assert forall|id: u32|
        !(old.len() <= id < cache.len()) && h.defs.contains_key(id) implies #[trigger] hg.defs.contains_key(id)
            && hg.defs[id] == h.defs[id] by {
        assert(hb.defs.contains_key(id));
        lemma_apply_definitions(hb, old, cache);
        assert(apply_events(hb, new_definitions(old, cache)).defs.contains_key(id));
        assert(hd.defs.contains_key(id) && hd.defs[id] == hb.defs[id]);
        assert(hb.defs[id] == h.defs[id]);
    }
    assert(apply_events(
        h,
        head_events(resized, send_defaults, full, scroll, cols, rows, new_definitions(old, cache), scrollback),
    ) == hg);
    assert(hg.rows.len() == r2.len());
    assert(forall|i: int|
                0 <= i < r2.len() ==> #[trigger] hg.rows[i] == match scroll {
                    Some(k) => if i < rows && i + k < rows {
                        r2[i + k]
                    } else {
                        r2[i]
                    },
                    None => r2[i],
                });
}

/// The host holds what the renderer last sent: every id the renderer defined,
/// with its set, and (after the first frame) the previous screen's rows as
/// columns, each of whose sets has an id.
pub open spec fn host_in_sync(r: RendererV, h: HostV) -> bool {
    &&& defs_agree(h.defs, r.cache)
    &&& match r.prev {
        Some(p) => {
            &&& h.rows == expand_lines(p.lines, r.cache)
            &&& all_defined(p.lines, r.cache)
            &&& p.lines.len() == p.rows
        },
        None => true,
    }
}

/// Every row of `lines` spans at most `u32::MAX` columns, so run lengths fit
/// the wire's 32-bit `repeat`.
pub open spec fn rows_fit_wire(lines: Seq<Seq<RowCellV>>) -> bool {
    forall|i: int| 0 <= i < lines.len() ==> row_width(#[trigger] lines[i]) <= u32::MAX
}

/// Every set of `row` has an id in `cache`.
pub open spec fn row_defined(row: Seq<RowCellV>, cache: Seq<Attrs>) -> bool {
    forall|k: int| 0 <= k < row.len() ==> cache.contains(#[trigger] row[k].attrs)
}

/// Screen reconstruction: a host that holds what the renderer sent so far and
/// applies the events of the next frame ends up holding exactly the new
/// screen (each row's text, with attribute sets resolved through the
/// `hl_attr` definitions it received) and the pushed lines appended to its
/// scrollback, and stays in step with the renderer for the frame after.
pub proof fn lemma_frame_reconstructs_screen(r: RendererV, s: SnapshotV, h: HostV)
    requires
        cache_wf(r.cache),
        has_id_room(r, s),
        s.screen.lines.len() == s.screen.rows,
        rows_fit_wire(s.screen.lines),
        rows_fit_wire(pushed_lines(r, s)),
        host_in_sync(r, h),
        r.prev is None ==> h.rows.len() == s.screen.rows,
    ensures
        ({
            let r2 = frame_state(r, s);
            let h2 = apply_events(h, frame_events(r, s));
            &&& host_in_sync(r2, h2)
            &&& h2.rows == expand_lines(s.screen.lines, r2.cache)
            &&& h2.scrollback == h.scrollback + expand_lines(pushed_lines(r, s), r2.cache)
            &&& forall|i: int|
                0 <= i < s.screen.lines.len() ==> resolve_row(#[trigger] h2.rows[i], h2.defs) == styled_row(
                    s.screen.lines[i],
                )
            &&& forall|j: int|
                0 <= j < pushed_lines(r, s).len() ==> resolve_row(
                    #[trigger] h2.scrollback[h.scrollback.len() + j],
                    h2.defs,
                ) == styled_row(pushed_lines(r, s)[j])
        }),
{
    let screen = s.screen;
    let lines = screen.lines;
    let n = lines.len();
    let c0 = r.cache;
    let c = frame_cache(r, s);
    let full = is_full(r, screen);
    let scroll = frame_scroll(r, screen);
    let rows = frame_rows(r, screen);
    lemma_frame_cache(r, s);
    lemma_changed_rows_bounds(r.prev, full, scroll, lines, n as int);

    // The frame's events: head, re-sent rows, tail.
    let hd = frame_head(r, s);
    let bd = grid_lines(lines, rows, c);
    let tl = frame_tail(r, s);
    assert(frame_events(r, s) == hd + bd + tl);
    lemma_apply_append(h, hd + bd, tl);
    lemma_apply_append(h, hd, bd);
    lemma_apply_head(
        h,
        is_resized(r, screen),
        !r.defaults_sent,
        full,
        scroll,
        screen.cols,
        screen.rows,
        c0,
        c,
        encode_lines(pushed_lines(r, s), c),
    );
    let h1 = apply_events(h, hd);
    let r1 = if is_resized(r, screen) {
        blank_rows(screen.rows as nat)
    } else {
        h.rows
    };
    let r2 = if full {
        blank_rows(r1.len())
    } else {
        r1
    };
    assert(r2.len() == n) by {
        if !full {
            let p = r.prev->0;
            assert(h.rows == expand_lines(p.lines, c0));
        }
    }
    assert forall|a: int| 0 <= a < rows.len() implies 0 <= #[trigger] rows[a] < h1.rows.len() && rows[a]
        < lines.len() by {}
    lemma_apply_grid_lines(h1, lines, rows, c);
    let h2 = apply_events(h1, bd);
    lemma_tail_passive(r, s);
    lemma_apply_passive(h2, tl);
    let h3 = apply_events(h, frame_events(r, s));
    assert(h3 == h2);

    // Every row ends up holding its expanded columns.
    assert forall|i: int| 0 <= i < n implies #[trigger] h2.rows[i] == expand_row(lines[i], c)
        && row_defined(lines[i], c) by {
        lemma_changed_rows_contains(r.prev, full, scroll, lines, n as int, i);
        if rows.contains(i) {
            let a = choose|a: int| 0 <= a < rows.len() && rows[a] == i;
            assert(lines_at(lines, rows)[a] == lines[i]);
            assert forall|k: int| 0 <= k < lines[i].len() implies c.contains(#[trigger] lines[i][k].attrs) by {
                assert(lines_at(lines, rows)[a][k] == lines[i][k]);
            }
        } else {
            assert(row_unchanged(r.prev, full, scroll, lines[i], i));
            let p = r.prev->0;
            let j = match scroll {
                Some(k) => if i + k < p.lines.len() {
                    i + k
                } else {
                    i
                },
                None => i,
            };
            assert(baseline(p.lines, i, scroll) == Some(p.lines[j]));
            assert(p.lines[j] == lines[i]);
            assert(h.rows[j] == expand_row(p.lines[j], c0));
            assert forall|k: int| 0 <= k < lines[i].len() implies c0.contains(#[trigger] lines[i][k].attrs) by {
                assert(p.lines[j][k] == lines[i][k]);
            }
            lemma_expand_stable(lines[i], c0, c);
            assert forall|k: int| 0 <= k < lines[i].len() implies c.contains(#[trigger] lines[i][k].attrs) by {
                lemma_id_of_extends(c0, c, lines[i][k].attrs);
            }
        }
    }
    assert(h2.rows =~= expand_lines(lines, c));

    // The host's definitions agree with the extended table.
    assert forall|id: u32| 0 < id < c.len() implies #[trigger] h2.defs.contains_key(id) && h2.defs[id]
        == c[id as int] by {
        assert(h2.defs == h1.defs);
        if id < c0.len() {
            assert(h.defs.contains_key(id));
            assert(h1.defs.contains_key(id));
            assert(c.subrange(0, c0.len() as int)[id as int] == c[id as int]);
        } else {
            assert(h1.defs.contains_key(id));
        }
    }

    // The committed lines decode to their expanded columns.
    assert(decode_lines(encode_lines(pushed_lines(r, s), c)) =~= expand_lines(pushed_lines(r, s), c)) by {
        assert forall|j: int| 0 <= j < pushed_lines(r, s).len() implies decode_lines(encode_lines(pushed_lines(r, s), c))[j]
            == expand_lines(pushed_lines(r, s), c)[j] by {
            lemma_expand_len(pushed_lines(r, s)[j], c);
            lemma_compress_roundtrip(expand_row(pushed_lines(r, s)[j], c), 0);
        }
    }

    // Resolution through the host's definitions.
    assert forall|i: int| 0 <= i < n implies resolve_row(#[trigger] h2.rows[i], h2.defs) == styled_row(
        lines[i],
    ) by {
        assert(h2.rows[i] == expand_row(lines[i], c));
        assert(row_defined(lines[i], c));
        lemma_resolve_expanded(lines[i], c, h2.defs);
    }
    assert forall|j: int| 0 <= j < pushed_lines(r, s).len() implies resolve_row(
        #[trigger] h2.scrollback[h.scrollback.len() + j],
        h2.defs,
    ) == styled_row(pushed_lines(r, s)[j]) by {
        assert(h2.scrollback[h.scrollback.len() + j] == expand_row(pushed_lines(r, s)[j], c));
        assert forall|k: int| 0 <= k < pushed_lines(r, s)[j].len() implies c.contains(
            #[trigger] pushed_lines(r, s)[j][k].attrs,
        ) by {}
        lemma_resolve_expanded(pushed_lines(r, s)[j], c, h2.defs);
    }
    assert forall|j: int, k: int| 0 <= j < n && 0 <= k < lines[j].len() implies c.contains(
        #[trigger] lines[j][k].attrs,
    ) by {
        assert(h2.rows[j] == expand_row(lines[j], c));
        assert(row_defined(lines[j], c));
    }
    assert(all_defined(lines, c));
}

/// The events after a frame's re-sent rows change nothing the host holds.
proof fn lemma_tail_passive(r: RendererV, s: SnapshotV)
    ensures
        forall|i: int| 0 <= i < frame_tail(r, s).len() ==> is_passive(#[trigger] frame_tail(r, s)[i]),
{
    reveal(tail_events);
    let t = frame_tail(r, s);
    assert forall|i: int| 0 <= i < t.len() implies is_passive(#[trigger] t[i]) by {
        let a = crate::render::cursor_part(r.prev_cursor, s.cursor);
        let b = crate::render::mode_part(r.prev_alt, s.alt_screen);
        let c = crate::render::title_part(s.title);
        let d = crate::render::bell_part(s.bell);
        assert(t == a + b + c + d + seq![EventV::Flush]);
        if i < a.len() {
        } else if i < a.len() + b.len() {
        } else if i < a.len() + b.len() + c.len() {
        } else if i < a.len() + b.len() + c.len() + d.len() {
        } else {
        }
    }
}


/// The renderer's state after rendering `snaps` in turn, starting from `r`.
pub open spec fn state_after(r: RendererV, snaps: Seq<SnapshotV>) -> RendererV
    decreases snaps.len(),
{
    if snaps.len() == 0 {
        r
    } else {
        frame_state(state_after(r, snaps.drop_last()), snaps.last())
    }
}

/// The events of rendering `snaps` in turn, starting from `r`: the frames
/// one after another.
pub open spec fn events_after(r: RendererV, snaps: Seq<SnapshotV>) -> Seq<EventV>
    decreases snaps.len(),
{
    if snaps.len() == 0 {
        seq![]
    } else {
        events_after(r, snaps.drop_last()) + frame_events(state_after(r, snaps.drop_last()), snaps.last())
    }
}

/// Every snapshot of `snaps` is one a renderer can draw in its turn: its
/// rows are its lines, its rows and pushed lines fit the wire's 32-bit
/// repeat, and the highlight ids do not run out.
pub open spec fn frames_fit(r: RendererV, snaps: Seq<SnapshotV>) -> bool {
    forall|j: int|
        0 <= j < snaps.len() ==> {
            &&& has_id_room(state_after(r, snaps.take(j)), #[trigger] snaps[j])
            &&& snaps[j].screen.lines.len() == snaps[j].screen.rows
            &&& rows_fit_wire(snaps[j].screen.lines)
            &&& rows_fit_wire(pushed_lines(state_after(r, snaps.take(j)), snaps[j]))
        }
}

/// Screen reconstruction across a session: a host in step with the renderer
/// that applies the frames of a sequence of snapshots in turn holds, after
/// each frame, exactly that frame's screen (each row's text with its
/// attribute sets resolved through the definitions received so far), and
/// stays in step with the renderer.
#[verifier::spinoff_prover]
#[verifier::rlimit(60)]
pub proof fn lemma_frames_reconstruct_screens(r: RendererV, snaps: Seq<SnapshotV>, h: HostV)
    requires
        cache_wf(r.cache),
        host_in_sync(r, h),
        r.prev is None && snaps.len() > 0 ==> h.rows.len() == snaps[0].screen.rows,
        frames_fit(r, snaps),
    ensures
        cache_wf(state_after(r, snaps).cache),
        host_in_sync(state_after(r, snaps), apply_events(h, events_after(r, snaps))),
        forall|j: int, i: int|
            0 <= j < snaps.len() && 0 <= i < snaps[j].screen.lines.len() ==> resolve_row(
                #[trigger] apply_events(h, events_after(r, snaps.take(j + 1))).rows[i],
                apply_events(h, events_after(r, snaps.take(j + 1))).defs,
            ) == styled_row(#[trigger] snaps[j].screen.lines[i]),
    decreases snaps.len(),
{
    if snaps.len() > 0 {
        let n = snaps.len() as int;
        let init = snaps.drop_last();
        let last = snaps.last();
        assert forall|j: int| 0 <= j <= init.len() implies #[trigger] init.take(j) == snaps.take(j) by {
            assert(init.take(j) =~= snaps.take(j));
        }
        assert(frames_fit(r, init)) by {
            assert forall|j: int| 0 <= j < init.len() implies init[j] == snaps[j] by {}
        }
        lemma_frames_reconstruct_screens(r, init, h);
        let r1 = state_after(r, init);
        let h1 = apply_events(h, events_after(r, init));
        assert(snaps.take(n - 1) =~= init);
        assert(snaps[n - 1] == last);
        if init.len() == 0 {
            assert(r1 == r);
            assert(events_after(r, init) =~= Seq::<EventV>::empty());
            assert(h1 == h);
        }
        lemma_frame_reconstructs_screen(r1, last, h1);
        lemma_frame_cache(r1, last);
        lemma_apply_append(h, events_after(r, init), frame_events(r1, last));
        assert(snaps.take(n) =~= snaps);
        assert forall|j: int, i: int|
            0 <= j < snaps.len() && 0 <= i < snaps[j].screen.lines.len() implies resolve_row(
            #[trigger] apply_events(h, events_after(r, snaps.take(j + 1))).rows[i],
            apply_events(h, events_after(r, snaps.take(j + 1))).defs,
        ) == styled_row(#[trigger] snaps[j].screen.lines[i]) by {
            if j < n - 1 {
                assert(init.take(j + 1) == snaps.take(j + 1));
                assert(init[j] == snaps[j]);
            }
        }
    }
}


/// Highlight definitions across a session: the `hl_attr` events of all
/// frames, taken together, define the ids after those the renderer started
/// with, each exactly once, in increasing order, each with the set the
/// renderer's table holds at that id. So no id is sent twice, id 0 and the
/// default set are never sent, and distinct definitions carry distinct sets.
#[verifier::spinoff_prover]
pub proof fn lemma_session_hl_defs(r: RendererV, snaps: Seq<SnapshotV>)
    requires
        cache_wf(r.cache),
        frames_fit(r, snaps),
    ensures
        cache_wf(state_after(r, snaps).cache),
        extends(state_after(r, snaps).cache, r.cache),
        hl_defs(events_after(r, snaps)) == defs_from(
            state_after(r, snaps).cache,
            r.cache.len() as int,
            state_after(r, snaps).cache.len() as int,
        ),
        forall|a: int, b: int|
            0 <= a < b < hl_defs(events_after(r, snaps)).len() ==> (#[trigger] hl_defs(
                events_after(r, snaps),
            )[a]).0 < (#[trigger] hl_defs(events_after(r, snaps))[b]).0 && hl_defs(events_after(r, snaps))[a].1
                != hl_defs(events_after(r, snaps))[b].1,
        forall|a: int|
            0 <= a < hl_defs(events_after(r, snaps)).len() ==> 0 < (#[trigger] hl_defs(
                events_after(r, snaps),
            )[a]).0 < state_after(r, snaps).cache.len() && hl_defs(events_after(r, snaps))[a].1
                == state_after(r, snaps).cache[hl_defs(events_after(r, snaps))[a].0 as int]
                && hl_defs(events_after(r, snaps))[a].1 != default_attrs(),
    decreases snaps.len(),
{
    let fin = state_after(r, snaps).cache;
    let lo = r.cache.len() as int;
    let hi = fin.len() as int;
    if snaps.len() > 0 {
        let n = snaps.len() as int;
        let init = snaps.drop_last();
        let last = snaps.last();
        assert forall|j: int| 0 <= j <= init.len() implies #[trigger] init.take(j) == snaps.take(j) by {
            assert(init.take(j) =~= snaps.take(j));
        }
        assert(frames_fit(r, init)) by {
            assert forall|j: int| 0 <= j < init.len() implies init[j] == snaps[j] by {}
        }
        lemma_session_hl_defs(r, init);
        let r1 = state_after(r, init);
        assert(snaps.take(n - 1) =~= init);
        assert(snaps[n - 1] == last);
        lemma_frame_hl_defs(r1, last);
        lemma_hl_defs_append(events_after(r, init), frame_events(r1, last));
        let mid = r1.cache.len() as int;
        assert(fin.subrange(0, mid) == r1.cache);
        assert(fin.subrange(0, lo) =~= r1.cache.subrange(0, lo));
        assert(defs_from(r1.cache, lo, mid) + defs_from(fin, mid, hi) =~= defs_from(fin, lo, hi)) by {
            assert forall|i: int| lo <= i < mid implies r1.cache[i] == fin[i] by {
                assert(fin.subrange(0, mid)[i] == fin[i]);
            }
        }
    } else {
        assert(defs_from(fin, lo, lo) =~= Seq::<(u32, Attrs)>::empty());
        assert(fin.subrange(0, lo) =~= fin);
    }
    let defs = hl_defs(events_after(r, snaps));
    assert forall|a: int| 0 <= a < defs.len() implies 0 < (#[trigger] defs[a]).0 < hi && defs[a].1
        == fin[defs[a].0 as int] && defs[a].1 != default_attrs() by {
        assert(defs[a] == ((lo + a) as u32, fin[lo + a]));
        assert(fin[0] == default_attrs());
    }
    assert forall|a: int, b: int| 0 <= a < b < defs.len() implies (#[trigger] defs[a]).0 < (
    #[trigger] defs[b]).0 && defs[a].1 != defs[b].1 by {
        assert(defs[a] == ((lo + a) as u32, fin[lo + a]));
        assert(defs[b] == ((lo + b) as u32, fin[lo + b]));
    }
}

/// While the alternate screen is active, a frame leaves the host's committed
/// scrollback untouched: the live region is updated in place.
pub proof fn lemma_alt_screen_keeps_scrollback(r: RendererV, s: SnapshotV, h: HostV)
    requires
        cache_wf(r.cache),
        has_id_room(r, s),
        s.screen.lines.len() == s.screen.rows,
        rows_fit_wire(s.screen.lines),
        host_in_sync(r, h),
        r.prev is None ==> h.rows.len() == s.screen.rows,
        s.alt_screen,
    ensures
        apply_events(h, frame_events(r, s)).scrollback == h.scrollback,
{
    assert(pushed_lines(r, s) =~= Seq::<Seq<RowCellV>>::empty());
    lemma_frame_reconstructs_screen(r, s, h);
    assert(expand_lines(pushed_lines(r, s), frame_state(r, s).cache) =~= Seq::<Seq<Column>>::empty());
    assert(h.scrollback + Seq::<Seq<Column>>::empty() =~= h.scrollback);
}

} // verus!
