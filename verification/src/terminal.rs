use vstd::prelude::*;
use crate::renderer::{Cell, Color, draw, text_glyphs, lemma_index_in_bounds};
use crate::flush::{Command, PlanState, flush_plan, plan_prefix, plan_step, plan_start, emit_run, emit_if_pending, run_end_x};
use vstd::arithmetic::div_mod::{lemma_fundamental_div_mod, lemma_mod_pos_bound};

verus! {

/// A model of a terminal: what each cell shows, the cursor, and the colour in which
/// characters are written.
pub ghost struct Terminal {
    pub cells: Seq<Cell>,
    pub cx: int,
    pub cy: int,
    pub color: Color,
}

/// What a command does to a `w` x `h` terminal. Printing writes the characters at
/// consecutive columns from the cursor in the current colour, drops those past the right
/// edge, and moves the cursor one column per character.
pub open spec fn apply_command(t: Terminal, w: int, h: int, c: Command) -> Terminal {
    match c {
        Command::MoveTo(x, y) => Terminal { cx: x as int, cy: y as int, ..t },
        Command::SetForeground(col) => Terminal { color: col, ..t },
        Command::ResetColor => Terminal { color: Color::Reset, ..t },
        Command::Print(text) => Terminal {
            cells: draw(t.cells, w, h, text_glyphs(t.cx, t.cy, text, t.color, w)),
            cx: t.cx + text.len(),
            ..t
        },
        _ => t,
    }
}

/// The terminal after the commands, in order.
pub open spec fn run_commands(t: Terminal, w: int, h: int, cs: Seq<Command>) -> Terminal
    decreases cs.len(),
{
    if cs.len() == 0 {
        t
    } else {
        apply_command(run_commands(t, w, h, cs.drop_last()), w, h, cs.last())
    }
}

pub proof fn lemma_run_append(t: Terminal, w: int, h: int, a: Seq<Command>, b: Seq<Command>)
    ensures
        run_commands(t, w, h, a + b) == run_commands(run_commands(t, w, h, a), w, h, b),
    decreases b.len(),
{
    if b.len() == 0 {
        assert(a + b =~= a);
    } else {
        assert((a + b).drop_last() =~= a + b.drop_last());
        lemma_run_append(t, w, h, a, b.drop_last());
    }
}

pub proof fn lemma_run_single(t: Terminal, w: int, h: int, c: Command)
    ensures
        run_commands(t, w, h, seq![c]) == apply_command(t, w, h, c),
{
    assert(seq![c].drop_last() =~= Seq::<Command>::empty());
    assert(run_commands(t, w, h, Seq::<Command>::empty()) == t);
}

/// Writing `text` within one row changes exactly the cells it covers.
proof fn lemma_draw_row(cells: Seq<Cell>, w: int, h: int, sx: int, sy: int, text: Seq<char>, color: Color)
    requires
        0 <= sx,
        sx + text.len() <= w,
        0 <= sy < h,
        cells.len() == w * h,
    ensures
        ({
            let r = draw(cells, w, h, text_glyphs(sx, sy, text, color, w));
            &&& r.len() == w * h
            &&& forall|j: int|
                0 <= j < w * h ==> #[trigger] r[j] == if sy * w + sx <= j < sy * w + sx + text.len() {
                    Cell { ch: text[j - sy * w - sx], color }
                } else {
                    cells[j]
                }
        }),
    decreases text.len(),
{
    let gs = text_glyphs(sx, sy, text, color, w);
    if text.len() == 0 {
        assert(gs.len() == 0);
    } else {
        let t2 = text.drop_last();
        lemma_draw_row(cells, w, h, sx, sy, t2, color);
        assert(gs.drop_last() =~= text_glyphs(sx, sy, t2, color, w));
        let n = text.len() - 1;
        lemma_index_in_bounds(w, h, sx + n, sy);
        let r2 = draw(cells, w, h, gs.drop_last());
        let r = draw(cells, w, h, gs);
        assert(r == r2.update(sy * w + sx + n, Cell { ch: text[n], color }));
        assert forall|j: int| 0 <= j < w * h implies #[trigger] r[j] == if sy * w + sx <= j < sy * w + sx
            + text.len() {
            Cell { ch: text[j - sy * w - sx], color }
        } else {
            cells[j]
        } by {
            if sy * w + sx <= j < sy * w + sx + n {
                assert(t2[j - sy * w - sx] == text[j - sy * w - sx]);
            }
        }
    }
}


/// The pending run of the planner's state `st` after `k` cells: it consists of the
/// changed cells just before `k`, all on one row and in the planner's colour.
spec fn run_ok(cells: Seq<Cell>, shown: Seq<Cell>, w: int, h: int, k: int, st: PlanState) -> bool {
    let n = st.run.len() as int;
    let start = st.run_start->0;
    &&& (n > 0 <==> st.run_start is Some)
    &&& n <= k
    &&& (n > 0 ==> {
        &&& start.0 + n <= w
        &&& (start.1 as int) < h
        &&& start.1 * w + start.0 + n == k
        &&& forall|j: int|
            k - n <= j < k ==> {
                &&& (#[trigger] cells[j]).color == st.color
                &&& cells[j] != shown[j]
                &&& cells[j].ch == st.run[j - (k - n)]
            }
    })
}

/// Cell `j` of a terminal that showed `init`, after a flush from the frame `shown` to
/// the frame `cells`: the new cell where the frame changed, the terminal's own cell
/// elsewhere.
pub open spec fn flushed_cell(cells: Seq<Cell>, shown: Seq<Cell>, init: Seq<Cell>, j: int) -> Cell {
    if cells[j] != shown[j] {
        cells[j]
    } else {
        init[j]
    }
}

/// The terminal `t`, which showed `init` before the flush, agrees with the planner's
/// state `st` after `k` cells: same colour, the cursor where the last run ended, the
/// cells before the pending run flushed and the rest as they were.
spec fn term_ok(cells: Seq<Cell>, shown: Seq<Cell>, init: Seq<Cell>, w: int, h: int, k: int, st: PlanState, t: Terminal) -> bool {
    let n = st.run.len() as int;
    let le = st.last_end->0;
    &&& t.color == st.color
    &&& (st.last_end is Some ==> t.cx == le.0 && t.cy == le.1)
    &&& t.cells.len() == w * h
    &&& forall|j: int| 0 <= j < k - n ==> #[trigger] t.cells[j] == flushed_cell(cells, shown, init, j)
    &&& forall|j: int| k - n <= j < w * h ==> #[trigger] t.cells[j] == init[j]
}

spec fn frame_ok(cells: Seq<Cell>, shown: Seq<Cell>, w: int, h: int) -> bool {
    &&& 0 <= w <= u16::MAX
    &&& 0 <= h <= u16::MAX
    &&& cells.len() == w * h
    &&& shown.len() == w * h
}

/// The commands that write out the pending run.
spec fn emit_delta(st: PlanState) -> Seq<Command> {
    let start = st.run_start->0;
    let mv = if st.last_end == Some((start.0, start.1)) {
        Seq::empty()
    } else {
        seq![Command::MoveTo(start.0, start.1)]
    };
    mv + seq![Command::Print(st.run)]
}

/// Writing out the pending run paints its cells with the new frame.
proof fn lemma_emit_ok(cells: Seq<Cell>, shown: Seq<Cell>, init: Seq<Cell>, w: int, h: int, k: int, st: PlanState, t: Terminal)
    requires
        frame_ok(cells, shown, w, h),
        0 <= k <= w * h,
        run_ok(cells, shown, w, h, k, st),
        term_ok(cells, shown, init, w, h, k, st, t),
        st.run.len() > 0,
    ensures
        emit_run(st).out == st.out + emit_delta(st),
        run_ok(cells, shown, w, h, k, emit_run(st)),
        term_ok(cells, shown, init, w, h, k, emit_run(st), run_commands(t, w, h, emit_delta(st))),
{
    let n = st.run.len() as int;
    let start = st.run_start->0;
    let sx = start.0 as int;
    let sy = start.1 as int;
    let st2 = emit_run(st);
    let mv = if st.last_end == Some((start.0, start.1)) {
        Seq::<Command>::empty()
    } else {
        seq![Command::MoveTo(start.0, start.1)]
    };
    assert(st2.out =~= st.out + emit_delta(st));
    let d = emit_delta(st);
    lemma_run_append(t, w, h, mv, seq![Command::Print(st.run)]);
    let t1 = run_commands(t, w, h, mv);
    if st.last_end == Some((start.0, start.1)) {
        assert(mv.len() == 0);
        assert(t1 == t);
    } else {
        lemma_run_single(t, w, h, Command::MoveTo(start.0, start.1));
    }
    assert(t1.cx == sx && t1.cy == sy && t1.color == st.color && t1.cells == t.cells);
    let pr = seq![Command::Print(st.run)];
    lemma_run_single(t1, w, h, Command::Print(st.run));
    let t2 = run_commands(t1, w, h, pr);
    assert(t2 == apply_command(t1, w, h, Command::Print(st.run)));
    assert(run_commands(t, w, h, d) == t2);
    assert(sx >= 0 && sy >= 0);
    lemma_draw_row(t.cells, w, h, sx, sy, st.run, st.color);
    assert(sy * w + sx == k - n);
    assert(sx + n <= w);
    assert(run_end_x(start.0, st.run) == sx + n);
    assert forall|j: int| 0 <= j < k implies #[trigger] t2.cells[j] == flushed_cell(cells, shown, init, j) by {
        if k - n <= j {
            assert(cells[j].ch == st.run[j - (k - n)]);
            assert(cells[j] == Cell { ch: cells[j].ch, color: cells[j].color });
        }
    }
    assert forall|j: int| k <= j < w * h implies #[trigger] t2.cells[j] == init[j] by {}
}

/// One step of the planner keeps the terminal in agreement with it.
proof fn lemma_step_ok(cells: Seq<Cell>, shown: Seq<Cell>, init: Seq<Cell>, w: int, h: int, k: int, st: PlanState, t: Terminal)
    requires
        frame_ok(cells, shown, w, h),
        0 <= k < w * h,
        run_ok(cells, shown, w, h, k, st),
        term_ok(cells, shown, init, w, h, k, st, t),
    ensures
        ({
            let st2 = plan_step(st, (k % w) as u16, (k / w) as u16, cells[k], shown[k]);
            &&& run_ok(cells, shown, w, h, k + 1, st2)
            &&& exists|d: Seq<Command>|
                #[trigger] (st.out + d) == st2.out && term_ok(cells, shown, init, w, h, k + 1,
                    st2,
                    run_commands(t, w, h, d),
                )
        }),
{
    assert(w > 0) by (nonlinear_arith)
        requires
            0 <= k < w * h,
            0 <= h,
    ;
    lemma_fundamental_div_mod(k, w);
    lemma_mod_pos_bound(k, w);
    let x = k % w;
    let y = k / w;
    assert(0 <= y) by (nonlinear_arith)
        requires
            0 <= k,
            w > 0,
            y == k / w,
    ;
    assert(y < h) by (nonlinear_arith)
        requires
            k == w * y + x,
            0 <= x,
            k < w * h,
            w > 0,
    ;
    assert(k == y * w + x) by (nonlinear_arith)
        requires
            k == w * y + x,
    ;
    let xu = x as u16;
    let yu = y as u16;
    assert(xu == x && yu == y);
    let cell = cells[k];
    let prev = shown[k];
    let st2 = plan_step(st, xu, yu, cell, prev);
    let n = st.run.len() as int;
    if cell == prev {
        if n > 0 {
            lemma_emit_ok(cells, shown, init, w, h, k, st, t);
            let d = emit_delta(st);
            let t1 = run_commands(t, w, h, d);
            assert(st2 == emit_run(st));
            assert(term_ok(cells, shown, init, w, h, k + 1, st2, t1));
            assert(st.out + d == st2.out);
        } else {
            let d = Seq::<Command>::empty();
            assert(st.out + d =~= st2.out);
            assert(run_commands(t, w, h, d) == t);
            assert(term_ok(cells, shown, init, w, h, k + 1, st2, t));
        }
    } else {
        // bring the colour to the cell's colour
        let s0 = emit_if_pending(st);
        let (d0, t0) = if n > 0 {
            lemma_emit_ok(cells, shown, init, w, h, k, st, t);
            (emit_delta(st), run_commands(t, w, h, emit_delta(st)))
        } else {
            assert(st.out + Seq::<Command>::empty() =~= st.out);
            (Seq::<Command>::empty(), t)
        };
        assert(s0.out == st.out + d0);
        assert(run_ok(cells, shown, w, h, k, s0));
        assert(term_ok(cells, shown, init, w, h, k, s0, t0));
        let s1 = if cell.color != st.color {
            PlanState { color: cell.color, out: s0.out.push(Command::SetForeground(cell.color)), ..s0 }
        } else {
            st
        };
        let (d1, t1) = if cell.color != st.color {
            let d1 = d0.push(Command::SetForeground(cell.color));
            lemma_run_append(t, w, h, d0, seq![Command::SetForeground(cell.color)]);
            assert(d0 + seq![Command::SetForeground(cell.color)] =~= d1);
            lemma_run_single(t0, w, h, Command::SetForeground(cell.color));
            assert(s1.out =~= st.out + d1);
            (d1, run_commands(t, w, h, d1))
        } else {
            assert(st.out + Seq::<Command>::empty() =~= st.out);
            (Seq::<Command>::empty(), t)
        };
        assert(s1.out == st.out + d1);
        assert(run_ok(cells, shown, w, h, k, s1));
        assert(term_ok(cells, shown, init, w, h, k, s1, t1));
        assert(s1.color == cell.color);
        let start = s1.run_start->0;
        let breaks = s1.run_start is Some && (yu != start.1 || xu != run_end_x(start.0, s1.run));
        let s2 = if breaks {
            emit_run(s1)
        } else {
            s1
        };
        let (d2, t2) = if breaks {
            lemma_emit_ok(cells, shown, init, w, h, k, s1, t1);
            lemma_run_append(t, w, h, d1, emit_delta(s1));
            assert(s2.out =~= st.out + (d1 + emit_delta(s1)));
            (d1 + emit_delta(s1), run_commands(t, w, h, d1 + emit_delta(s1)))
        } else {
            (d1, t1)
        };
        assert(s2.out == st.out + d2);
        assert(run_ok(cells, shown, w, h, k, s2));
        assert(term_ok(cells, shown, init, w, h, k, s2, t2));
        let n2 = s2.run.len() as int;
        if n2 > 0 {
            let st0 = s2.run_start->0;
            // the run is contiguous with this cell
            assert(run_end_x(st0.0, s2.run) == st0.0 + n2);
            assert(yu == st0.1 && xu == st0.0 + n2);
        }
        let s3 = if s2.run_start is None {
            PlanState { run_start: Some((xu, yu)), ..s2 }
        } else {
            s2
        };
        assert(st2 == PlanState { run: s3.run.push(cell.ch), ..s3 });
        assert(st2.out == st.out + d2);
        let r2 = st2.run;
        assert forall|j: int| k + 1 - (n2 + 1) <= j < k + 1 implies {
            &&& (#[trigger] cells[j]).color == st2.color
            &&& cells[j] != shown[j]
            &&& cells[j].ch == st2.run[j - (k + 1 - (n2 + 1))]
        } by {
            if j < k {
                assert(cells[j].ch == s2.run[j - (k - n2)]);
            }
        }
        assert(run_ok(cells, shown, w, h, k + 1, st2));
        assert(term_ok(cells, shown, init, w, h, k + 1, st2, t2));
    }
}


proof fn lemma_prefix_ok(cells: Seq<Cell>, shown: Seq<Cell>, init: Seq<Cell>, w: int, h: int, t: Terminal, k: nat)
    requires
        frame_ok(cells, shown, w, h),
        k <= w * h,
        t.cells == init,
        init.len() == w * h,
        t.color == Color::Reset,
    ensures
        run_ok(cells, shown, w, h, k as int, plan_prefix(cells, shown, w, k)),
        term_ok(cells, shown, init, w, h, k as int,
            plan_prefix(cells, shown, w, k),
            run_commands(t, w, h, seq![Command::BeginSync] + plan_prefix(cells, shown, w, k).out),
        ),
    decreases k,
{
    let begin = seq![Command::BeginSync];
    if k == 0 {
        assert(begin + plan_start().out =~= begin);
        lemma_run_single(t, w, h, Command::BeginSync);
    } else {
        let j = (k - 1) as nat;
        lemma_prefix_ok(cells, shown, init, w, h, t, j);
        let st = plan_prefix(cells, shown, w, j);
        let tj = run_commands(t, w, h, begin + st.out);
        lemma_step_ok(cells, shown, init, w, h, j as int, st, tj);
        let st2 = plan_prefix(cells, shown, w, k);
        let d = choose|d: Seq<Command>|
            #[trigger] (st.out + d) == st2.out && term_ok(cells, shown, init, w, h, k as int,
                st2,
                run_commands(tj, w, h, d),
            );
        lemma_run_append(t, w, h, begin + st.out, d);
        assert(begin + st.out + d =~= begin + st2.out);
    }
}

/// Diff-based flushing writes exactly the changed cells: on a terminal in the default
/// colour, whatever it shows, the planned commands put the new cell wherever the frame
/// differs from the one last shown, leave every other cell as the terminal had it, and
/// end in the default colour.
pub proof fn lemma_flush_writes_only_changes(cells: Seq<Cell>, shown: Seq<Cell>, w: int, h: int, t: Terminal)
    requires
        0 <= w <= u16::MAX,
        0 <= h <= u16::MAX,
        cells.len() == w * h,
        shown.len() == w * h,
        t.cells.len() == w * h,
        t.color == Color::Reset,
    ensures
        run_commands(t, w, h, flush_plan(cells, shown, w)).cells.len() == w * h,
        forall|j: int|
            0 <= j < w * h ==> #[trigger] run_commands(t, w, h, flush_plan(cells, shown, w)).cells[j]
                == flushed_cell(cells, shown, t.cells, j),
        run_commands(t, w, h, flush_plan(cells, shown, w)).color == Color::Reset,
{
    let init = t.cells;
    let nn = cells.len();
    let begin = seq![Command::BeginSync];
    lemma_prefix_ok(cells, shown, init, w, h, t, nn);
    let st = plan_prefix(cells, shown, w, nn);
    let ts = run_commands(t, w, h, begin + st.out);
    let fin = emit_if_pending(st);
    let tf = if st.run.len() > 0 {
        lemma_emit_ok(cells, shown, init, w, h, nn as int, st, ts);
        lemma_run_append(t, w, h, begin + st.out, emit_delta(st));
        assert(begin + st.out + emit_delta(st) =~= begin + fin.out);
        run_commands(t, w, h, begin + fin.out)
    } else {
        ts
    };
    assert(tf == run_commands(t, w, h, begin + fin.out));
    assert(term_ok(cells, shown, init, w, h, nn as int, fin, tf));
    let reset = if fin.color != Color::Reset {
        seq![Command::ResetColor]
    } else {
        Seq::empty()
    };
    let plan = flush_plan(cells, shown, w);
    assert(plan =~= (begin + fin.out) + (reset + seq![Command::EndSync]));
    lemma_run_append(t, w, h, begin + fin.out, reset + seq![Command::EndSync]);
    lemma_run_append(tf, w, h, reset, seq![Command::EndSync]);
    let tr = run_commands(tf, w, h, reset);
    if fin.color != Color::Reset {
        lemma_run_single(tf, w, h, Command::ResetColor);
    } else {
        assert(tr == tf);
    }
    lemma_run_single(tr, w, h, Command::EndSync);
}

/// Diff-based flushing is sound: a terminal that shows the previous frame, in the
/// default colour, shows exactly the new frame after the planned commands, and is back
/// in the default colour.
pub proof fn lemma_flush_paints_frame(cells: Seq<Cell>, shown: Seq<Cell>, w: int, h: int, t: Terminal)
    requires
        0 <= w <= u16::MAX,
        0 <= h <= u16::MAX,
        cells.len() == w * h,
        shown.len() == w * h,
        t.cells == shown,
        t.color == Color::Reset,
    ensures
        run_commands(t, w, h, flush_plan(cells, shown, w)).cells == cells,
        run_commands(t, w, h, flush_plan(cells, shown, w)).color == Color::Reset,
{
    lemma_flush_writes_only_changes(cells, shown, w, h, t);
    let r = run_commands(t, w, h, flush_plan(cells, shown, w));
    assert forall|j: int| 0 <= j < w * h implies r.cells[j] == cells[j] by {
        assert(r.cells[j] == flushed_cell(cells, shown, t.cells, j));
    }
    assert(r.cells =~= cells);
}

proof fn lemma_idle_prefix(cells: Seq<Cell>, w: int, k: nat)
    requires
        k <= cells.len(),
    ensures
        plan_prefix(cells, cells, w, k) == plan_start(),
    decreases k,
{
    if k > 0 {
        lemma_idle_prefix(cells, w, (k - 1) as nat);
    }
}

/// Flushing a frame that is already on the screen writes nothing but the empty
/// synchronized update.
pub proof fn lemma_flush_unchanged_is_empty(cells: Seq<Cell>, w: int)
    ensures
        flush_plan(cells, cells, w) == seq![Command::BeginSync, Command::EndSync],
{
    lemma_idle_prefix(cells, w, cells.len());
    let plan = flush_plan(cells, cells, w);
    assert(plan =~= seq![Command::BeginSync, Command::EndSync]);
}

} // verus!
