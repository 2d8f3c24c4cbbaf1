//! Going through the history from the line that is typed.

use crate::editcmd::Direction;
use crate::history::HistEntry;
use crate::history::History;
use crate::history;
use crate::linebuf::buffer;
use crate::linebuf::buffer::LineBuf;
use crate::linebuf::buffer::Viewport;
use crate::linebuf::concat;
use crate::linebuf::exec;
use crate::linebuf::lines;
use crate::linebuf::lines::clone_lines;
use crate::linebuf::pos::Cursor;
use crate::linebuf::pos::Pos;
use crate::linebuf::render;
use crate::linebuf::words;
use vstd::prelude::*;

verus! {

/// The last place of a text.
pub open spec fn end_pos(t: Seq<Seq<Seq<char>>>) -> Pos {
    words::bounded(t, Pos { row: usize::MAX, col: usize::MAX }, false)
}

/// A new buffer that shows a command, with the cursor at its end.
pub open spec fn shows(b: LineBuf, command: Seq<char>, view: Viewport) -> bool {
    &&& b.wf()
    &&& b.text() == lines::lines_of(command)
    &&& lines::text_chars(b.text()) == command
    &&& b.hint is None
    &&& b.cursor == (Cursor { pos: end_pos(b.text()), exclusive: false })
    &&& b.select_mode is None
    &&& b.last_selection is None
    &&& b.insert_mode_start_pos is None
    &&& b.saved_col is None
    &&& b.undo_stack@.len() == 0
    &&& b.redo_stack@.len() == 0
    &&& b.scroll_offset == buffer::rescrolled(0, 0, b.text(), None, view)
    &&& b.kill_ring@.len() == 0
    &&& !b.kill_ring.merging
    &&& b.kill_ring.selected is None
    &&& b.kill_ring.kill_cycle_span is None
    &&& b.concat_points@.len() == 0
}

/// A new buffer that shows a command.
pub fn show_command(command: &str, view: Viewport) -> (r: LineBuf)
    ensures
        shows(r, command@, view),
{
    let mut b = LineBuf::new();
    b.set_buffer(command, view);
    b.set_hint(None);
    b.move_cursor_to_end();
    b
}

/// Whether the line was swapped with an entry of the history: an entry takes the
/// place of the line, which is put aside if none is; without an entry what was put
/// aside comes back.
pub open spec fn swapped(
    a: LineBuf,
    h: History,
    entry: Option<HistEntry>,
    b: LineBuf,
    g: History,
    view: Viewport,
) -> bool {
    match entry {
        Some(e) => shows(b, e.command@, view) && g == (History {
            pending: if h.pending is None {
                Some(a)
            } else {
                h.pending
            },
            ..h
        }),
        None => match h.pending {
            Some(p) => b == p && g == (History { pending: None, ..h }),
            None => b == a && g == h,
        },
    }
}

/// Swaps the line with an entry of the history. Returns whether there was anything
/// to swap with.
pub fn swap_entry(buf: &mut LineBuf, hist: &mut History, entry: Option<HistEntry>, view: Viewport)
    -> (r: bool)
    requires
        old(buf).wf(),
        old(hist).wf(),
    ensures
        swapped(*old(buf), *old(hist), entry, *final(buf), *final(hist), view),
        final(buf).wf(),
        final(hist).wf(),
        r == (entry is Some || old(hist).pending is Some),
{
    match entry {
        Some(e) => {
            let mut b = show_command(e.command.as_str(), view);
            std::mem::swap(buf, &mut b);
            if hist.pending.is_none() {
                hist.pending = Some(b);
            }
            true
        },
        None => match hist.pending.take() {
            Some(p) => {
                *buf = p;
                true
            },
            None => false,
        },
    }
}

/// Goes through the history by some entries, from the line that is typed.
pub fn browse(buf: &mut LineBuf, hist: &mut History, offset: isize, view: Viewport) -> (r: bool)
    requires
        old(buf).wf(),
        old(hist).wf(),
    ensures
        exists|h: History|
            #![trigger History::scrolled(*old(hist), h, offset)]
            History::scrolled(*old(hist), h, offset) && swapped(
                *old(buf),
                h,
                h.current(),
                *final(buf),
                *final(hist),
                view,
            ) && r == (h.current() is Some || h.pending is Some),
        final(buf).wf(),
        final(hist).wf(),
{
    let entry = hist.scroll(offset);
    let ghost h = *hist;
    let r = swap_entry(buf, hist, entry, view);
    assert(History::scrolled(*old(hist), h, offset));
    r
}

/// The buffer where the cursor stays on characters or not, and is on the text.
pub open spec fn settled(a: LineBuf, b: LineBuf, clamp: bool, view: Viewport) -> bool {
    &&& b.text() == buffer::fixed_text(a.text())
    &&& b.cursor == (Cursor {
        pos: buffer::fixed_pos(b.text(), Cursor { pos: a.cursor.pos, exclusive: clamp }),
        exclusive: clamp,
    })
    &&& b.scroll_offset == buffer::rescrolled(
        a.scroll_offset,
        b.cursor.pos.row,
        b.text(),
        a.hinted(),
        view,
    )
    &&& b == (LineBuf { lines: b.lines, cursor: b.cursor, scroll_offset: b.scroll_offset, ..a })
}

/// Swaps the line with an entry of the history, in a mode in which the cursor stays
/// on characters or not. Returns whether to ring, since there is nothing to swap
/// with.
pub fn swap_history_editor(
    buf: &mut LineBuf,
    hist: &mut History,
    entry: Option<HistEntry>,
    clamp: bool,
    view: Viewport,
) -> (r: bool)
    requires
        old(buf).wf(),
        old(hist).wf(),
    ensures
        r == (entry is None && old(hist).pending is None),
        r ==> *final(buf) == *old(buf) && *final(hist) == *old(hist),
        !r ==> exists|m: LineBuf|
            #![trigger swapped(*old(buf), *old(hist), entry, m, *final(hist), view)]
            swapped(*old(buf), *old(hist), entry, m, *final(hist), view) && settled(
                m,
                *final(buf),
                clamp,
                view,
            ),
        final(buf).wf(),
        final(hist).wf(),
{
    if !swap_entry(buf, hist, entry, view) {
        return true;
    }
    let ghost m = *buf;
    buf.set_cursor_clamp(clamp);
    buf.fix_cursor(view);
    assert(swapped(*old(buf), *old(hist), entry, m, *hist, view));
    false
}

/// What a scroll from the line that is typed starts from: entries that begin with
/// the line.
pub open spec fn scroll_start(a: LineBuf, h: History, s: History) -> bool {
    if h.pending is None {
        &&& s.search_mask@ == history::masked(
            h.entries@,
            Some(lines::text_chars(render::marked(a.text(), a.cursor.pos, a.select_mode))),
        )
        &&& s == (History { search_mask: s.search_mask, ..h })
    } else {
        s == h
    }
}

/// Goes through the history by some entries. Returns whether to ring: forward from
/// the line that is typed there is nothing.
pub fn scroll_history(
    buf: &mut LineBuf,
    hist: &mut History,
    count: isize,
    clamp: bool,
    view: Viewport,
) -> (r: bool)
    requires
        old(buf).wf(),
        old(hist).wf(),
    ensures
        final(buf).wf(),
        final(hist).wf(),
        old(hist).pending is None && count >= 0 ==> r && *final(buf) == *old(buf) && *final(hist)
            == *old(hist),
        !(old(hist).pending is None && count >= 0) ==> exists|s: History, h: History|
            #![trigger scroll_start(*old(buf), *old(hist), s), History::scrolled(s, h, count)]
            {
                &&& scroll_start(*old(buf), *old(hist), s)
                &&& History::scrolled(s, h, count)
                &&& r == (h.current() is None && h.pending is None)
                &&& r ==> *final(buf) == *old(buf) && *final(hist) == h
                &&& !r ==> exists|m: LineBuf|
                    #![trigger swapped(*old(buf), h, h.current(), m, *final(hist), view)]
                    swapped(*old(buf), h, h.current(), m, *final(hist), view) && settled(
                        m,
                        *final(buf),
                        clamp,
                        view,
                    )
            },
{
    if hist.pending.is_none() {
        if count >= 0 {
            return true;
        }
        let joined = buf.to_string();
        hist.update_search_mask(Some(joined.as_str()));
    }
    let ghost s = *hist;
    assert(scroll_start(*old(buf), *old(hist), s));
    let entry = hist.scroll(count);
    let ghost h = *hist;
    assert(History::scrolled(s, h, count));
    swap_history_editor(buf, hist, entry, clamp, view)
}

/// The history of all sessions, with all of it to choose from.
pub open spec fn all_sessions(h: History, s: History) -> bool {
    &&& s.entries@ == h.search_entries@
    &&& History::constrained(History { entries: s.entries, mask_stale: true, ..h }, s, None)
}

/// Whether the line was swapped with an entry of the histories of all sessions.
pub open spec fn jumped(
    a: LineBuf,
    from: History,
    b: LineBuf,
    to: History,
    idx: usize,
    clamp: bool,
    rings: bool,
    total: Option<usize>,
    view: Viewport,
) -> bool {
    exists|s: History, h: History|
        #![trigger all_sessions(from, s), History::scrolled_to(s, h, idx)]
        {
            &&& all_sessions(from, s)
            &&& History::scrolled_to(s, h, idx)
            &&& total == (if h.current() is Some {
                Some(h.search_mask@.len() as usize)
            } else {
                None
            })
            &&& rings == (h.current() is None && h.pending is None)
            &&& rings ==> b == a && to == h
            &&& !rings ==> exists|m: LineBuf|
                #![trigger swapped(a, h, h.current(), m, to, view)]
                swapped(a, h, h.current(), m, to, view) && settled(m, b, clamp, view)
        }
}

/// Goes to an entry of the histories of all sessions. Returns whether to ring, and
/// how many entries there are where the entry was found.
pub fn scroll_history_to(
    buf: &mut LineBuf,
    hist: &mut History,
    idx: usize,
    clamp: bool,
    view: Viewport,
) -> (r: (bool, Option<usize>))
    requires
        old(buf).wf(),
        old(hist).wf(),
    ensures
        final(buf).wf(),
        final(hist).wf(),
        jumped(*old(buf), *old(hist), *final(buf), *final(hist), idx, clamp, r.0, r.1, view),
{
    hist.merge_search_entries();
    let ghost merged = *hist;
    hist.constrain_entries(None);
    let ghost s = *hist;
    assert(merged == (History { entries: s.entries, mask_stale: true, ..*old(hist) }));
    assert(History::constrained(merged, s, None));
    assert(all_sessions(*old(hist), s));
    let entry = hist.scroll_to(idx);
    let ghost h = *hist;
    assert(History::scrolled_to(s, h, idx));
    let total = if entry.is_some() {
        Some(hist.search_mask_count())
    } else {
        None
    };
    (swap_history_editor(buf, hist, entry, clamp, view), total)
}

/// The line when everything is taken off it.
pub open spec fn emptied(a: LineBuf, b: LineBuf, view: Viewport) -> bool {
    &&& b.text() == seq![Seq::<Seq<char>>::empty()]
    &&& b.cursor == (Cursor { pos: Pos { row: 0, col: 0 }, exclusive: a.cursor.exclusive })
    &&& b.concat_points@.len() == 0
    &&& b.scroll_offset == buffer::rescrolled(a.scroll_offset, 0, b.text(), a.hinted(), view)
    &&& b == (LineBuf {
        lines: b.lines,
        cursor: b.cursor,
        scroll_offset: b.scroll_offset,
        concat_points: b.concat_points,
        ..a
    })
}

/// What happens to the line when an entry is joined to it, or taken off again.
pub open spec fn virt_step(
    a: LineBuf,
    h: History,
    b: LineBuf,
    g: History,
    up: bool,
    sep: Seq<char>,
    view: Viewport,
    taking_off: bool,
) -> bool {
    let offset: isize = if up {
        (-1) as isize
    } else {
        1
    };
    if taking_off {
        if a.concat_points@.len() == 0 {
            &&& emptied(a, b, view)
            &&& g == (History { virt_cursor: h.cursor, ..h })
        } else {
            &&& concat::popped(
                a,
                b,
                if up {
                    lines::before(a.text(), a.concat_points@.last())
                } else {
                    lines::after(a.text(), a.concat_points@[0])
                },
                view,
            )
            &&& b.concat_points@ == (if up {
                a.concat_points@.drop_last()
            } else {
                a.concat_points@.skip(1)
            })
            &&& g == (History { virt_cursor: h.looked_ahead(offset), ..h })
        }
    } else {
        &&& g == (History { virt_cursor: h.looked_ahead(offset), ..h })
        &&& if h.looked_ahead(offset) == h.virt_cursor {
            b == a
        } else {
            let cmd = h.search_mask@[g.virt_cursor as int].command@;
            &&& b == (LineBuf {
                lines: b.lines,
                cursor: Cursor {
                    pos: end_pos(b.text()),
                    exclusive: a.cursor.exclusive,
                },
                concat_points: b.concat_points,
                ..a
            })
            &&& if exec::blank(a.text()) {
                b.text() == lines::lines_of(cmd) && b.concat_points@ == a.concat_points@
            } else if up {
                let l = concat::left_part(a.text(), sep, cmd);
                &&& b.text() == lines::attached(l, concat::kept_right(a.text()))
                &&& b.concat_points@ == seq![lines::seam(l)] + a.concat_points@
            } else {
                let l = concat::kept_left(a.text());
                &&& b.text() == lines::attached(l, concat::right_part(a.text(), sep, cmd))
                &&& b.concat_points@ == a.concat_points@.push(lines::seam(l))
            }
        }
    }
}

/// Whether some steps lead from one line to another. Taking off ends where nothing
/// is left to take off.
pub open spec fn virt_steps(
    a: LineBuf,
    h: History,
    b: LineBuf,
    g: History,
    up: bool,
    sep: Seq<char>,
    view: Viewport,
    taking_off: bool,
    n: nat,
) -> bool
    decreases n,
{
    if n == 0 {
        b == a && g == h
    } else {
        exists|m: LineBuf, k: History|
            #![trigger virt_step(m, k, b, g, up, sep, view, taking_off)]
            virt_steps(a, h, m, k, up, sep, view, taking_off, (n - 1) as nat) && virt_step(
                m,
                k,
                b,
                g,
                up,
                sep,
                view,
                taking_off,
            )
    }
}

fn step_virtually(
    buf: &mut LineBuf,
    hist: &mut History,
    up: bool,
    sep: &str,
    view: Viewport,
    taking_off: bool,
) -> (r: bool)
    requires
        old(buf).wf(),
        old(hist).wf(),
    ensures
        final(buf).wf(),
        final(hist).wf(),
        virt_step(
            *old(buf),
            *old(hist),
            *final(buf),
            *final(hist),
            up,
            sep@,
            view,
            taking_off,
        ),
        r == !(taking_off && old(buf).concat_points@.len() == 0),
        final(hist).cursor == old(hist).cursor,
        final(buf).undo_stack == old(buf).undo_stack,
{
    let offset: isize = if up {
        -1
    } else {
        1
    };
    if taking_off {
        let more: bool = if up {
            buf.pop_right(view)
        } else {
            buf.pop_left(view)
        };
        if !more {
            buf.clear_buffer(view);
            hist.stop_virtual_scroll();
            return false;
        }
        let _ = hist.virt_scroll(offset);
        return true;
    }
    if let Some(e) = hist.virt_scroll(offset) {
        if up {
            buf.concat_left(sep, e.command.as_str());
        } else {
            buf.concat_right(sep, e.command.as_str());
        }
        proof {
            assert(buf.text().len() > 0) by {
                lines::lemma_rows_nonempty(e.command@);
            }
            assert(buf.text().len() == buf.lines@.len());
        }
        buf.move_cursor_to_end();
    }
    true
}

/// Joins entries of the history to the line, or takes them off again, and records
/// it as one change. Going on in the direction of before joins; going back takes
/// off. Entries are joined with `&&` where shift is held down, else with a
/// semicolon.
pub fn scroll_history_virtual(
    buf: &mut LineBuf,
    hist: &mut History,
    up: bool,
    count: usize,
    shift: bool,
    view: Viewport,
)
    requires
        old(buf).wf(),
        old(hist).wf(),
    ensures
        final(buf).wf(),
        final(hist).wf(),
        exists|m: LineBuf, n: nat|
            #![trigger virt_steps(*old(buf), *old(hist), m, *final(hist), up, joiner(shift), view, going_back(*old(hist), up), n)]
            {
                &&& virt_steps(
                    *old(buf),
                    *old(hist),
                    m,
                    *final(hist),
                    up,
                    joiner(shift),
                    view,
                    going_back(*old(hist), up),
                    n,
                )
                &&& n == (if going_back(*old(hist), up) && old(buf).concat_points@.len() < count {
                    old(buf).concat_points@.len() + 1
                } else {
                    count as nat
                })
                &&& final(buf).text() == m.text()
                &&& *final(buf) == (LineBuf {
                    hint: if exec::blank(m.text()) {
                        None
                    } else {
                        m.hint
                    },
                    undo_stack: final(buf).undo_stack,
                    ..m
                })
                &&& exec::steps(final(buf).undo_stack@) == exec::recorded(
                    exec::steps(old(buf).undo_stack@),
                    old(buf).text(),
                    m.text(),
                    old(buf).cursor.pos,
                    m.cursor.pos,
                )
            },
{
    let before = clone_lines(&buf.lines);
    let old_cursor: Pos = buf.cursor.pos;
    let sep: &str = if shift {
        " && "
    } else {
        "; "
    };
    let taking_off: bool = match hist.virtual_scroll_direction() {
        Some(Direction::Forward) => up,
        Some(Direction::Backward) => !up,
        None => false,
    };
    assert(taking_off == going_back(*hist, up));
    let ghost a = *buf;
    let ghost h = *hist;
    let mut i: usize = 0;
    let mut more: bool = true;
    while i < count && more
        invariant
            i <= count,
            buf.wf(),
            hist.wf(),
            virt_steps(a, h, *buf, *hist, up, sep@, view, taking_off, i as nat),
            !more ==> taking_off && i == a.concat_points@.len() + 1,
            more && taking_off ==> i + buf.concat_points@.len() == a.concat_points@.len(),
            buf.undo_stack == a.undo_stack,
        decreases count - i,
    {
        let ghost m = *buf;
        let ghost k = *hist;
        more = step_virtually(buf, hist, up, sep, view, taking_off);
        assert(virt_step(m, k, *buf, *hist, up, sep@, view, taking_off));
        i = i + 1;
    }
    let ghost m = *buf;
    assert(virt_steps(a, h, m, *hist, up, sep@, view, taking_off, i as nat));
    buf.end_edit(before, old_cursor);
    assert(sep@ == joiner(shift));
    assert(virt_steps(
        *old(buf),
        *old(hist),
        m,
        *hist,
        up,
        joiner(shift),
        view,
        going_back(*old(hist), up),
        i as nat,
    ));
    assert(buf.text() == m.text());
    assert(exec::steps(buf.undo_stack@) == exec::recorded(
        exec::steps(old(buf).undo_stack@),
        old(buf).text(),
        m.text(),
        old(buf).cursor.pos,
        m.cursor.pos,
    ));
}

/// What stands between entries that are joined.
pub open spec fn joiner(shift: bool) -> Seq<char> {
    if shift {
        " && "@
    } else {
        "; "@
    }
}

/// Whether a step goes back to where the line came from.
pub open spec fn going_back(h: History, up: bool) -> bool {
    if up {
        h.virt_cursor > h.cursor
    } else {
        h.virt_cursor < h.cursor
    }
}

} // verus!
