use vstd::prelude::*;
use crate::renderer::{Cell, Color};
use vstd::arithmetic::div_mod::lemma_fundamental_div_mod_converse;

verus! {

/// A terminal command that brings the screen from the previous frame to the new one.
pub enum TermCommand {
    BeginSync,
    MoveTo(u16, u16),
    SetForeground(Color),
    Print(Vec<char>),
    ResetColor,
    EndSync,
}

/// The mathematical form of a `TermCommand`.
pub ghost enum Command {
    BeginSync,
    MoveTo(u16, u16),
    SetForeground(Color),
    Print(Seq<char>),
    ResetColor,
    EndSync,
}

impl View for TermCommand {
    type V = Command;

    open spec fn view(&self) -> Command {
        match self {
            TermCommand::BeginSync => Command::BeginSync,
            TermCommand::MoveTo(x, y) => Command::MoveTo(*x, *y),
            TermCommand::SetForeground(c) => Command::SetForeground(*c),
            TermCommand::Print(text) => Command::Print(text@),
            TermCommand::ResetColor => Command::ResetColor,
            TermCommand::EndSync => Command::EndSync,
        }
    }
}

pub open spec fn commands_view(cmds: Seq<TermCommand>) -> Seq<Command> {
    cmds.map_values(|c: TermCommand| c@)
}

/// The column just after a run of characters that starts at column `sx`: each
/// character takes one column. (The `u16` arithmetic never wraps for a run inside a
/// row of at most `u16::MAX` columns.)
pub open spec fn run_end_x(sx: u16, run: Seq<char>) -> u16 {
    ((sx + run.len()) % 0x10000) as u16
}

/// What the flush planner knows after a prefix of the cells: the colour the terminal
/// writes in, the pending run of changed characters and where it starts, where the
/// last printed run ended, and the commands so far.
pub ghost struct PlanState {
    pub color: Color,
    pub run: Seq<char>,
    pub run_start: Option<(u16, u16)>,
    pub last_end: Option<(u16, u16)>,
    pub out: Seq<Command>,
}

pub open spec fn plan_start() -> PlanState {
    PlanState {
        color: Color::Reset,
        run: Seq::empty(),
        run_start: None,
        last_end: None,
        out: Seq::empty(),
    }
}

/// Writes out the pending run: a cursor move unless the cursor already stands at its
/// start, then the run's characters.
pub open spec fn emit_run(st: PlanState) -> PlanState {
    let start = st.run_start->0;
    let sx = start.0;
    let sy = start.1;
    let mv = if st.last_end == Some((sx, sy)) {
        Seq::empty()
    } else {
        seq![Command::MoveTo(sx, sy)]
    };
    PlanState {
        color: st.color,
        run: Seq::empty(),
        run_start: None,
        last_end: Some((run_end_x(sx, st.run), sy)),
        out: st.out + mv + seq![Command::Print(st.run)],
    }
}

pub open spec fn emit_if_pending(st: PlanState) -> PlanState {
    if st.run.len() > 0 {
        emit_run(st)
    } else {
        st
    }
}

/// The planner's step for the cell at column `x`, row `y`, which is `cell` in the new
/// frame and `prev` on the screen.
pub open spec fn plan_step(st: PlanState, x: u16, y: u16, cell: Cell, prev: Cell) -> PlanState {
    if cell == prev {
        emit_if_pending(st)
    } else {
        let s1 = if cell.color != st.color {
            let s0 = emit_if_pending(st);
            PlanState {
                color: cell.color,
                out: s0.out.push(Command::SetForeground(cell.color)),
                ..s0
            }
        } else {
            st
        };
        let start = s1.run_start->0;
        let s2 = if s1.run_start is Some && (y != start.1 || x != run_end_x(start.0, s1.run)) {
            emit_run(s1)
        } else {
            s1
        };
        let s3 = if s2.run_start is None {
            PlanState { run_start: Some((x, y)), ..s2 }
        } else {
            s2
        };
        PlanState { run: s3.run.push(cell.ch), ..s3 }
    }
}

/// The planner's state after the first `k` cells, taken row by row in a buffer `w` wide.
pub open spec fn plan_prefix(cells: Seq<Cell>, shown: Seq<Cell>, w: int, k: nat) -> PlanState
    decreases k,
{
    if k == 0 {
        plan_start()
    } else {
        let j = (k - 1) as int;
        plan_step(
            plan_prefix(cells, shown, w, (k - 1) as nat),
            (j % w) as u16,
            (j / w) as u16,
            cells[j],
            shown[j],
        )
    }
}

/// The commands that bring a terminal showing `shown` to `cells`, a buffer `w` wide:
/// inside a synchronized update, runs of changed cells of one colour, each preceded by
/// a colour change where the colour differs and by a cursor move where the cursor is
/// not already there, and a colour reset at the end if the colour was changed.
pub open spec fn flush_plan(cells: Seq<Cell>, shown: Seq<Cell>, w: int) -> Seq<Command> {
    seq![Command::BeginSync] + plan_tail(plan_prefix(cells, shown, w, cells.len()))
}

/// The commands after the last cell: the pending run, a colour reset if the colour was
/// changed, and the end of the synchronized update.
pub open spec fn plan_tail(st: PlanState) -> Seq<Command> {
    let fin = emit_if_pending(st);
    let reset = if fin.color != Color::Reset {
        seq![Command::ResetColor]
    } else {
        Seq::empty()
    };
    fin.out + reset + seq![Command::EndSync]
}

/// The executable state of the flush planner.
struct Planner {
    color: Color,
    run: Vec<char>,
    run_start: Option<(u16, u16)>,
    last_end: Option<(u16, u16)>,
    out: Vec<TermCommand>,
}

impl Planner {
    spec fn state(&self) -> PlanState {
        PlanState {
            color: self.color,
            run: self.run@,
            run_start: self.run_start,
            last_end: self.last_end,
            out: commands_view(self.out@),
        }
    }

    spec fn inv(&self) -> bool {
        &&& (self.run@.len() > 0 <==> self.run_start is Some)
        &&& self.run@.len() <= 0xFFFF_FFFF
    }

    fn new() -> (p: Self)
        ensures
            p.inv(),
            p.state() == plan_start(),
            p.run@.len() == 0,
    {
        let p = Planner {
            color: Color::Reset,
            run: Vec::new(),
            run_start: None,
            last_end: None,
            out: Vec::new(),
        };
        assert(commands_view(p.out@) =~= Seq::empty());
        p
    }

    fn push_command(&mut self, c: TermCommand)
        ensures
            final(self).out@ == old(self).out@.push(c),
            commands_view(final(self).out@) == commands_view(old(self).out@).push(c@),
            final(self).color == old(self).color,
            final(self).run == old(self).run,
            final(self).run_start == old(self).run_start,
            final(self).last_end == old(self).last_end,
    {
        self.out.push(c);
        assert(commands_view(self.out@) =~= commands_view(old(self).out@).push(c@));
    }

    fn emit_run(&mut self)
        requires
            old(self).inv(),
            old(self).run@.len() > 0,
        ensures
            final(self).inv(),
            final(self).state() == emit_run(old(self).state()),
            final(self).run@.len() == 0,
    {
        let (sx, sy) = match self.run_start {
            Some(p) => p,
            None => {
                assert(false);
                (0, 0)
            },
        };
        let at_start = match self.last_end {
            Some((lx, ly)) => lx == sx && ly == sy,
            None => false,
        };
        if !at_start {
            self.push_command(TermCommand::MoveTo(sx, sy));
        }
        let end_x = ((sx as u64 + self.run.len() as u64) % 0x10000) as u16;
        let mut text: Vec<char> = Vec::new();
        std::mem::swap(&mut text, &mut self.run);
        let ghost before = commands_view(self.out@);
        self.push_command(TermCommand::Print(text));
        self.last_end = Some((end_x, sy));
        self.run_start = None;
        proof {
            let st = old(self).state();
            let mv = if st.last_end == Some((sx, sy)) {
                Seq::empty()
            } else {
                seq![Command::MoveTo(sx, sy)]
            };
            if st.last_end == Some((sx, sy)) {
                assert(before =~= st.out + mv);
            } else {
                assert(before =~= st.out + mv);
            }
            assert(self.state().out =~= emit_run(st).out);
            assert(self.run@ =~= Seq::<char>::empty());
        }
    }

    fn emit_if_pending(&mut self)
        requires
            old(self).inv(),
        ensures
            final(self).inv(),
            final(self).state() == emit_if_pending(old(self).state()),
            final(self).run@.len() <= old(self).run@.len(),
    {
        if self.run.len() > 0 {
            self.emit_run();
        }
    }

    fn step(&mut self, x: u16, y: u16, cell: Cell, prev: Cell)
        requires
            old(self).inv(),
            old(self).run@.len() < 0xFFFF_FFFF,
        ensures
            final(self).inv(),
            final(self).state() == plan_step(old(self).state(), x, y, cell, prev),
            final(self).run@.len() <= old(self).run@.len() + 1,
    {
        if cell == prev {
            self.emit_if_pending();
            return;
        }
        if cell.color != self.color {
            self.emit_if_pending();
            self.push_command(TermCommand::SetForeground(cell.color));
            self.color = cell.color;
        }
        let ghost s1 = self.state();
        match self.run_start {
            Some((sx, sy)) => {
                let expected_x = ((sx as u64 + self.run.len() as u64) % 0x10000) as u16;
                if y != sy || x != expected_x {
                    self.emit_run();
                }
            },
            None => {},
        }
        if self.run_start.is_none() {
            self.run_start = Some((x, y));
        }
        self.run.push(cell.ch);
    }

    fn finish(self) -> (cmds: Vec<TermCommand>)
        requires
            self.inv(),
        ensures
            commands_view(cmds@) == plan_tail(self.state()),
    {
        let mut p = self;
        p.emit_if_pending();
        if p.color != Color::Reset {
            p.push_command(TermCommand::ResetColor);
        }
        p.push_command(TermCommand::EndSync);
        p.out
    }
}

/// Plans the terminal output that turns a screen showing `shown` into `cells`, both
/// `width` x `height` buffers taken row by row.
pub fn plan_frame(cells: &Vec<Cell>, shown: &Vec<Cell>, width: u16, height: u16) -> (cmds: Vec<
    TermCommand,
>)
    requires
        cells@.len() == width * height,
        shown@.len() == width * height,
    ensures
        commands_view(cmds@) == flush_plan(cells@, shown@, width as int),
{
    let ghost w = width as int;
    proof {
        crate::renderer::lemma_area_bound(width as int, height as int);
    }
    let mut p = Planner::new();
    p.push_command(TermCommand::BeginSync);
    let ghost begin = seq![Command::BeginSync];
    assert(commands_view(p.out@) =~= begin + plan_prefix(cells@, shown@, w, 0).out);
    let mut y: u16 = 0;
    while y < height
        invariant
            cells@.len() == width * height,
            shown@.len() == width * height,
            w == width,
            w * height <= 0xFFFE_0001,
            y <= height,
            p.inv(),
            p.run@.len() <= y * w,
            p.state() == prefixed(begin, plan_prefix(cells@, shown@, w, (y * w) as nat)),
        decreases height - y,
    {
        let mut x: u16 = 0;
        proof {
            assert(0 <= y * w) by (nonlinear_arith)
                requires
                    0 <= y,
                    0 <= w,
            ;
            assert((y + 1) * w <= w * height) by (nonlinear_arith)
                requires
                    y < height,
                    0 <= w,
            ;
            assert((y + 1) * w == y * w + w) by (nonlinear_arith);
        }
        while x < width
            invariant
                cells@.len() == width * height,
                shown@.len() == width * height,
                w == width,
                w * height <= 0xFFFE_0001,
                y < height,
                x <= width,
                0 <= y * w,
                (y + 1) * w <= w * height,
                (y + 1) * w == y * w + w,
                p.inv(),
                p.run@.len() <= y * w + x,
                p.state() == prefixed(begin, plan_prefix(cells@, shown@, w, (y * w + x) as nat)),
            decreases width - x,
        {
            let idx = y as usize * width as usize + x as usize;
            let cell = cells[idx];
            let prev = shown[idx];
            proof {
                lemma_fundamental_div_mod_converse(idx as int, w, y as int, x as int);
            }
            let ghost before = p.state();
            p.step(x, y, cell, prev);
            proof {
                let k = (idx + 1) as nat;
                let stk = plan_prefix(cells@, shown@, w, idx as nat);
                assert(plan_prefix(cells@, shown@, w, k) == plan_step(stk, x, y, cell, prev));
                lemma_step_out_prefix(stk, begin, x, y, cell, prev);
            }
            x += 1;
        }
        y += 1;
    }
    proof {
        assert(y * w == cells@.len()) by (nonlinear_arith)
            requires
                y == height,
                w == width,
                cells@.len() == width * height,
        ;
    }
    let cmds = p.finish();
    proof {
        let st = plan_prefix(cells@, shown@, w, cells@.len());
        lemma_emit_out_prefix(st, begin);
        let fin = emit_if_pending(st);
        let reset = if fin.color != Color::Reset {
            seq![Command::ResetColor]
        } else {
            Seq::empty()
        };
        assert(begin + fin.out + reset + seq![Command::EndSync] =~= seq![Command::BeginSync] + fin.out
            + reset + seq![Command::EndSync]);
    }
    cmds
}

/// Prefixing the commands emitted so far commutes with a step of the planner.
proof fn lemma_step_out_prefix(st: PlanState, pre: Seq<Command>, x: u16, y: u16, cell: Cell, prev: Cell)
    ensures
        plan_step(prefixed(pre, st), x, y, cell, prev) == prefixed(pre, plan_step(st, x, y, cell, prev)),
{
    let sp = prefixed(pre, st);
    lemma_emit_out_prefix(st, pre);
    if cell != prev {
        let s1 = if cell.color != st.color {
            let s0 = emit_if_pending(st);
            PlanState { color: cell.color, out: s0.out.push(Command::SetForeground(cell.color)), ..s0 }
        } else {
            st
        };
        let s1p = if cell.color != sp.color {
            let s0 = emit_if_pending(sp);
            PlanState { color: cell.color, out: s0.out.push(Command::SetForeground(cell.color)), ..s0 }
        } else {
            sp
        };
        if cell.color != st.color {
            assert(s1p.out =~= pre + s1.out);
        }
        assert(s1p == prefixed(pre, s1));
        lemma_emit_out_prefix(s1, pre);
        let b = plan_step(st, x, y, cell, prev);
        let a = plan_step(sp, x, y, cell, prev);
        assert(a.out =~= pre + b.out);
    }
}

/// `st` with `pre` put before the commands it has emitted.
pub open spec fn prefixed(pre: Seq<Command>, st: PlanState) -> PlanState {
    PlanState { out: pre + st.out, ..st }
}

proof fn lemma_emit_out_prefix(st: PlanState, pre: Seq<Command>)
    ensures
        emit_run(prefixed(pre, st)) == prefixed(pre, emit_run(st)),
        emit_if_pending(prefixed(pre, st)) == prefixed(pre, emit_if_pending(st)),
{
    let a = emit_run(prefixed(pre, st));
    let b = emit_run(st);
    assert(a.out =~= pre + b.out);
}

} // verus!
