//! The execution engine: compile source into a statement tree, then drive it one statement at
//! a time under the step/play/pause/loop transport.
//!
//! `step()` executes exactly one statement and returns the events it produced. The host owns
//! the clock; there is no run-to-completion path here, so a `herhaal 99999` stays
//! interruptible. Turtles move in fixed-point integer math; the engine emits already-wrapped
//! `Plot` ops.

use vstd::prelude::*;

use crate::command::{AudioCmd, DrawOp, Event, Sprite, Voice, WrapMode};
use crate::env::{env_refs_below, key_of, refs_from, value_refs_below, Binding, Env};
use crate::error::{err, ErrorKind, SchildpadError};
use crate::expr::{
    arith_only, arith_value, error_line_is, eval, is_literal, literal_type, literal_value_ok, plain_of, plain_only, plain_value, to_num, tok_text,
    Plain,
};
use crate::fixed::{advance, advance_spec, clamp, dist_q8_of, norm_deg, round_to_px_spec, within_limit, wrap, FixedPos};
use crate::frame::{bound, last_turtle, getal_part, resolves, verb_resolves, has_random, names_plain, resolve_slots, resolve_turtle_verb, slot_filled, slots_from_tokens, without_at, PartialFrame, SlotValues};
use crate::lexer::{lexed, tokenize, Cmp, Tok, Token};
use crate::number::{trunc_div, Getal};
use crate::program::{block, clone_token, compile, line_of, lines_fit, stmt_refs_below, token_range, unbracketed, without_brackets, LineView, Program, Stmt};
use crate::resolve::{built_name, resolve_name, segments_evaluable};
use crate::rng::{scramble, seeded, xorshift, Rng, DEFAULT_SEED};
use crate::text::{ascii_lowercase, chars_eq_str, chars_to_string, push_chars, push_str, str_chars, string_of, trim_chars};
use crate::value::{str_of, value_text, Deuntje, Toon, Value};
use crate::vocab::{
    verb_sampler_matches, all_notes, colour_name, colour_word, constant_meaning, constant_value, envelope_name, envelope_word, note_centihertz, note_hz,
    osc_name, osc_word, verb_sig, verb_slots, Colour, ConstVal, Envelope, Note, Osc, Sampler, Type, Verb, VerbSig,
};

verus! {

/// One framebuffer: a grid of 8×8 glyph cells, its edge policy and the glyph cursor.
#[derive(Debug, Clone, Copy)]
pub struct Framebuffer {
    pub cols: u16,
    pub rows: u16,
    pub wrap: WrapMode,
    pub cur_col: u16,
    pub cur_row: u16,
}

impl Framebuffer {
    /// Width in logical pixels.
    pub fn w(&self) -> (r: i64)
        ensures
            r == self.cols * 8,
    {
        self.cols as i64 * 8
    }

    /// Height in logical pixels.
    pub fn h(&self) -> (r: i64)
        ensures
            r == self.rows * 8,
    {
        self.rows as i64 * 8
    }
}

/// A live turtle. Its position is unwrapped (Q8 logical pixels); it is wrapped only when
/// plotted or shown.
#[derive(Debug)]
pub struct Turtle {
    pub name: String,
    pub pos: FixedPos,
    pub heading: i64,
    pub pen: Colour,
    pub pen_down: bool,
    pub tint: u8,
    pub buffer: u8,
}

/// How an execution frame repeats when its block is used up.
#[derive(Debug, Clone, Copy, PartialEq, Eq, Structural)]
pub enum FrameKind {
    Once,
    /// a counted loop with `reps` more passes to go
    Count { reps: u64 },
    Unbounded,
}

/// A position in a block of the program.
#[derive(Debug, Clone, Copy, PartialEq, Eq, Structural)]
pub struct ExecFrame {
    pub block: usize,
    pub idx: usize,
    pub kind: FrameKind,
}

// ---- specifications of the observable effects ------------------------------------------------

/// Where a pixel coordinate lands in a buffer dimension under an edge policy.
pub open spec fn placed(p: int, dim: int, mode: WrapMode) -> int {
    if dim <= 0 {
        0
    } else {
        match mode {
            WrapMode::Wrap => p % dim,
            WrapMode::Clamp => if p < 0 { 0 } else if p > dim - 1 { dim - 1 } else { p },
        }
    }
}

pub open spec fn iabs(x: int) -> int {
    if x < 0 { -x } else { x }
}

/// The number of steps a line from `(x0, y0)` to `(x1, y1)` is drawn in (at least one).
pub open spec fn span(x0: int, y0: int, x1: int, y1: int) -> int {
    let a = iabs(x1 - x0);
    let b = iabs(y1 - y0);
    let m = if a > b { a } else { b };
    if m > 1 { m } else { 1 }
}

/// The `s`-th point of the line, interpolated with truncation toward zero.
pub open spec fn lerp(a: int, b: int, s: int, steps: int) -> int {
    a + trunc_div((b - a) * s, steps)
}

/// The plots a pen-down move from `(x0, y0)` to `(x1, y1)` leaves: `span + 1` points.
pub open spec fn trail(fb: u8, x0: int, y0: int, x1: int, y1: int, w: int, h: int, mode: WrapMode, pen: Colour) -> Seq<Event> {
    let steps = span(x0, y0, x1, y1);
    Seq::new(
        (steps + 1) as nat,
        |s: int|
            Event::Draw(
                DrawOp::Plot {
                    fb,
                    x: placed(lerp(x0, x1, s, steps), w, mode) as u16,
                    y: placed(lerp(y0, y1, s, steps), h, mode) as u16,
                    colour: colour_word(pen),
                },
            ),
    )
}

/// Adding at most one step's worth to a non-negative numerator moves its quotient by at most one.
proof fn lemma_quotient_step(n: int, d: int, st: int)
    requires
        st > 0,
        0 <= d <= st,
        n >= 0,
    ensures
        n / st <= (n + d) / st <= n / st + 1,
{
    vstd::arithmetic::div_mod::lemma_div_is_ordered(n, n + d, st);
    vstd::arithmetic::div_mod::lemma_fundamental_div_mod(n, st);
    vstd::arithmetic::div_mod::lemma_fundamental_div_mod(n + d, st);
    let q = n / st;
    let q2 = (n + d) / st;
    let r = n % st;
    let r2 = (n + d) % st;
    assert(0 <= r < st && 0 <= r2 < st);
    assert(st * q2 < st * q + 2 * st);
    assert(st * (q + 2) == st * q + 2 * st) by (nonlinear_arith);
    assert(q2 <= q + 1) by (nonlinear_arith)
        requires
            st * q2 < st * (q + 2),
            st > 0,
    ;
}

/// Consecutive points of a line drawn in `st` steps (with `st` at least the distance) are at
/// most one pixel apart.
proof fn lemma_lerp_step(a: int, b: int, s: int, st: int)
    requires
        st >= 1,
        iabs(b - a) <= st,
        0 <= s < st,
    ensures
        iabs(lerp(a, b, s + 1, st) - lerp(a, b, s, st)) <= 1,
{
    let d = b - a;
    assert(d * (s + 1) == d * s + d) by (nonlinear_arith);
    if d >= 0 {
        assert(d * s >= 0) by (nonlinear_arith)
            requires
                d >= 0,
                s >= 0,
        ;
        lemma_quotient_step(d * s, d, st);
    } else {
        assert((-d) * s >= 0) by (nonlinear_arith)
            requires
                d < 0,
                s >= 0,
        ;
        assert(-(d * s) == (-d) * s) by (nonlinear_arith);
        assert(-(d * (s + 1)) == (-d) * s + (-d)) by (nonlinear_arith);
        lemma_quotient_step((-d) * s, -d, st);
    }
}

/// A line drawn in `st` steps starts at `a` and ends at `b`.
proof fn lemma_lerp_ends(a: int, b: int, st: int)
    requires
        st >= 1,
    ensures
        lerp(a, b, 0, st) == a,
        lerp(a, b, st, st) == b,
{
    let d = b - a;
    assert(d * 0 == 0) by (nonlinear_arith);
    if d >= 0 {
        vstd::arithmetic::div_mod::lemma_div_by_multiple(d, st);
    } else {
        vstd::arithmetic::div_mod::lemma_div_by_multiple(-d, st);
        assert(-(d * st) == (-d) * st) by (nonlinear_arith);
    }
}

/// The `k`-th point of a line drawn in `st` steps is the exact point `k/st` of the way along,
/// truncated toward the start.
proof fn lemma_lerp_exact(a: int, b: int, k: int, st: int)
    requires
        st >= 1,
        0 <= k,
    ensures
        st * iabs(lerp(a, b, k, st) - a) <= iabs(b - a) * k < st * (iabs(lerp(a, b, k, st) - a) + 1),
        b >= a ==> lerp(a, b, k, st) >= a,
        b <= a ==> lerp(a, b, k, st) <= a,
{
    let d = b - a;
    let n = iabs(d) * k;
    assert(n >= 0) by (nonlinear_arith)
        requires
            n == iabs(d) * k,
            iabs(d) >= 0,
            k >= 0,
    ;
    vstd::arithmetic::div_mod::lemma_fundamental_div_mod(n, st);
    let q = n / st;
    let r = n % st;
    assert(0 <= r < st);
    assert(q >= 0) by {
        vstd::arithmetic::div_mod::lemma_div_is_ordered(0, n, st);
    }
    assert(st * (q + 1) == st * q + st) by (nonlinear_arith);
    if d >= 0 {
        assert(d * k == n);
    } else {
        assert(d * k == -n) by (nonlinear_arith)
            requires
                n == (-d) * k,
        ;
        assert(-(d * k) == n);
    }
}

/// A pen-down move leaves a connected trail: one plot more than the longer of its two
/// distances (at least two plots), running from the start to the end point with each plot at
/// most one pixel from the one before in each direction. The `k`-th plot is the exact point
/// `k/steps` of the way along, truncated toward the start; every plot is placed in the buffer
/// (wrapped or clamped) in the pen's colour.
pub proof fn law_trail_is_connected(fb: u8, x0: int, y0: int, x1: int, y1: int, w: int, h: int, mode: WrapMode, pen: Colour)
    ensures
        ({
            let t = trail(fb, x0, y0, x1, y1, w, h, mode, pen);
            let m = if iabs(x1 - x0) > iabs(y1 - y0) { iabs(x1 - x0) } else { iabs(y1 - y0) };
            &&& t.len() == (if m > 1 { m } else { 1 }) + 1
            &&& exists|xs: Seq<int>, ys: Seq<int>|
                {
                    &&& xs.len() == t.len() && ys.len() == t.len()
                    &&& xs[0] == x0 && ys[0] == y0
                    &&& xs.last() == x1 && ys.last() == y1
                    &&& forall|k: int| 0 <= k < t.len() - 1 ==> iabs(#[trigger] xs[k + 1] - xs[k]) <= 1 && iabs(ys[k + 1] - ys[k]) <= 1
                    &&& forall|k: int|
                        0 <= k < t.len() ==> (t.len() - 1) * iabs(#[trigger] xs[k] - x0) <= iabs(x1 - x0) * k < (t.len() - 1) * (
                        iabs(xs[k] - x0) + 1) && (x1 >= x0 ==> xs[k] >= x0) && (x1 <= x0 ==> xs[k] <= x0)
                    &&& forall|k: int|
                        0 <= k < t.len() ==> (t.len() - 1) * iabs(#[trigger] ys[k] - y0) <= iabs(y1 - y0) * k < (t.len() - 1) * (
                        iabs(ys[k] - y0) + 1) && (y1 >= y0 ==> ys[k] >= y0) && (y1 <= y0 ==> ys[k] <= y0)
                    &&& forall|k: int| 0 <= k < t.len() ==> #[trigger] t[k] == Event::Draw(
                        DrawOp::Plot {
                            fb,
                            x: placed(xs[k], w, mode) as u16,
                            y: placed(ys[k], h, mode) as u16,
                            colour: colour_word(pen),
                        },
                    )
                }
        }),
{
    let st = span(x0, y0, x1, y1);
    let t = trail(fb, x0, y0, x1, y1, w, h, mode, pen);
    let xs = Seq::new((st + 1) as nat, |k: int| lerp(x0, x1, k, st));
    let ys = Seq::new((st + 1) as nat, |k: int| lerp(y0, y1, k, st));
    lemma_lerp_ends(x0, x1, st);
    lemma_lerp_ends(y0, y1, st);
    assert forall|k: int| 0 <= k < t.len() - 1 implies iabs(#[trigger] xs[k + 1] - xs[k]) <= 1 && iabs(ys[k + 1] - ys[k]) <= 1 by {
        lemma_lerp_step(x0, x1, k, st);
        lemma_lerp_step(y0, y1, k, st);
    }
    assert(xs.last() == x1 && ys.last() == y1);
    assert forall|k: int| 0 <= k < t.len() implies (t.len() - 1) * iabs(#[trigger] xs[k] - x0) <= iabs(x1 - x0) * k < (t.len() - 1) * (
        iabs(xs[k] - x0) + 1) && (x1 >= x0 ==> xs[k] >= x0) && (x1 <= x0 ==> xs[k] <= x0) by {
        lemma_lerp_exact(x0, x1, k, st);
    }
    assert forall|k: int| 0 <= k < t.len() implies (t.len() - 1) * iabs(#[trigger] ys[k] - y0) <= iabs(y1 - y0) * k < (t.len() - 1) * (
        iabs(ys[k] - y0) + 1) && (y1 >= y0 ==> ys[k] >= y0) && (y1 <= y0 ==> ys[k] <= y0) by {
        lemma_lerp_exact(y0, y1, k, st);
    }
    assert forall|k: int| 0 <= k < t.len() implies #[trigger] t[k] == Event::Draw(
        DrawOp::Plot { fb, x: placed(xs[k], w, mode) as u16, y: placed(ys[k], h, mode) as u16, colour: colour_word(pen) },
    ) by {}
    assert(xs.len() == t.len() && ys.len() == t.len() && xs[0] == x0 && ys[0] == y0);
}

/// The glyph cursor after printing `len` characters at `(col, row)`: it wraps the column grid,
/// and the rows wrap as well.
pub open spec fn cursor_after(col: int, row: int, len: int, cols: int, rows: int) -> (int, int) {
    ((col + len) % cols, (row + (col + len) / cols) % rows)
}

/// `out` grew by output only: drawing and sound, no line markers, errors or ends.
pub open spec fn appends_output(before: Seq<Event>, after: Seq<Event>) -> bool {
    &&& before.len() <= after.len()
    &&& after.subrange(0, before.len() as int) == before
    &&& forall|k: int| before.len() <= k < after.len() ==> (#[trigger] after[k] is Draw || after[k] is Audio)
}

pub open spec fn is_loop_frame(f: ExecFrame) -> bool {
    f.kind is Count || f.kind is Unbounded
}

/// The index of the innermost loop frame, or -1 when there is none.
pub open spec fn innermost_loop(st: Seq<ExecFrame>) -> int
    decreases st.len(),
{
    if st.len() == 0 {
        -1
    } else if is_loop_frame(st.last()) {
        st.len() - 1
    } else {
        innermost_loop(st.drop_last())
    }
}

/// The frame stack after `stop`: cut just below the innermost loop frame (unchanged outside
/// any loop).
pub open spec fn after_stop(st: Seq<ExecFrame>) -> Seq<ExecFrame> {
    if innermost_loop(st) < 0 { st } else { st.subrange(0, innermost_loop(st)) }
}

/// A lone `stop`.
pub open spec fn is_stop_line(toks: Seq<Token>) -> bool {
    toks.len() == 1 && toks[0].kind == Tok::Stop
}

/// `stop` cuts at the innermost loop: the frame it finds is a loop frame and no frame above it
/// is one.
pub proof fn law_stop_cuts_at_innermost_loop(st: Seq<ExecFrame>)
    ensures
        -1 <= innermost_loop(st) < st.len(),
        innermost_loop(st) >= 0 ==> is_loop_frame(st[innermost_loop(st)]),
        forall|k: int| innermost_loop(st) < k < st.len() ==> !is_loop_frame(#[trigger] st[k]),
    decreases st.len(),
{
    if st.len() > 0 && !is_loop_frame(st.last()) {
        law_stop_cuts_at_innermost_loop(st.drop_last());
        assert forall|k: int| innermost_loop(st) < k < st.len() implies !is_loop_frame(#[trigger] st[k]) by {
            if k < st.len() - 1 {
                assert(st[k] == st.drop_last()[k]);
            }
        }
    }
}

/// The sprite a turtle shows as.
pub open spec fn sprite_of(t: Turtle, id: int, fb: Framebuffer) -> Sprite {
    Sprite {
        id: id as usize,
        fb: t.buffer,
        x: placed(round_to_px_spec(t.pos.x as int), fb.cols * 8, WrapMode::Wrap) as u16,
        y: placed(round_to_px_spec(t.pos.y as int), fb.rows * 8, WrapMode::Wrap) as u16,
        heading_deg: (t.heading % 360) as u16,
        tint: t.tint,
        pen_down: t.pen_down,
    }
}

/// The pen a new turtle starts with: the default pens in turn.
pub open spec fn default_pen_spec(i: int) -> Colour {
    let k = i % 8;
    if k == 0 {
        Colour::Groen
    } else if k == 1 {
        Colour::Blauw
    } else if k == 2 {
        Colour::Geel
    } else if k == 3 {
        Colour::Rood
    } else if k == 4 {
        Colour::Oranje
    } else if k == 5 {
        Colour::Paars
    } else if k == 6 {
        Colour::Cyaan
    } else {
        Colour::Roze
    }
}

/// Turtles take their pens in turn from a fixed list of eight: the first made draws in groen,
/// then blauw, geel, rood, oranje, paars, cyaan, roze, and the ninth starts over at groen.
pub proof fn law_default_pens_in_turn(i: nat)
    ensures
        default_pen_spec(i as int) == seq![
            Colour::Groen,
            Colour::Blauw,
            Colour::Geel,
            Colour::Rood,
            Colour::Oranje,
            Colour::Paars,
            Colour::Cyaan,
            Colour::Roze,
        ][(i % 8) as int],
        default_pen_spec((i + 8) as int) == default_pen_spec(i as int),
{
}

fn default_pen(i: usize) -> (c: Colour)
    ensures
        c == default_pen_spec(i as int),
{
    match i % 8 {
        0 => Colour::Groen,
        1 => Colour::Blauw,
        2 => Colour::Geel,
        3 => Colour::Rood,
        4 => Colour::Oranje,
        5 => Colour::Paars,
        6 => Colour::Cyaan,
        _ => Colour::Roze,
    }
}

pub open spec fn fb_ok(fb: Framebuffer) -> bool {
    fb.cols >= 1 && fb.rows >= 1
}

pub open spec fn turtle_ok(t: Turtle, nfb: nat) -> bool {
    &&& (t.buffer as int) < nfb
    &&& within_limit(t.pos.x as int)
    &&& within_limit(t.pos.y as int)
    &&& 0 <= t.heading < 360
}

// ---- the machine state --------------------------------------------------------------------

struct Machine {
    env: Env,
    turtles: Vec<Turtle>,
    rng: Rng,
    fbs: Vec<Framebuffer>,
    active_fb: usize,
    stack: Vec<ExecFrame>,
    done: bool,
    seed: u64,
}

impl Machine {
    /// Everything but the frame stack is consistent: buffers exist and have a size, turtles
    /// stand in existing buffers within the position range, and every turtle a binding
    /// refers to exists.
    spec fn state_ok(&self) -> bool {
        &&& 1 <= self.fbs@.len() <= 256
        &&& self.active_fb < self.fbs@.len()
        &&& forall|i: int| 0 <= i < self.fbs@.len() ==> fb_ok(#[trigger] self.fbs@[i])
        &&& forall|i: int| 0 <= i < self.turtles@.len() ==> turtle_ok(#[trigger] self.turtles@[i], self.fbs@.len())
        &&& env_refs_below(self.env@, self.turtles@.len())
    }

    spec fn stack_ok(&self, n: nat) -> bool {
        forall|i: int| 0 <= i < self.stack@.len() ==> (#[trigger] self.stack@[i]).block < n
    }
}

proof fn lemma_env_refs_grow(m: Map<Seq<char>, Binding>, n: nat, k: nat)
    requires
        env_refs_below(m, n),
        n <= k,
    ensures
        env_refs_below(m, k),
{
    assert forall|key: Seq<char>| #[trigger] m.contains_key(key) implies value_refs_below(m[key].value, k) by {
        assert(value_refs_below(m[key].value, n));
    }
}

proof fn lemma_env_refs_insert(m: Map<Seq<char>, Binding>, key: Seq<char>, b: Binding, n: nat)
    requires
        env_refs_below(m, n),
        value_refs_below(b.value, n),
    ensures
        env_refs_below(m.insert(key, b), n),
{
    let m2 = m.insert(key, b);
    assert forall|k2: Seq<char>| #[trigger] m2.contains_key(k2) implies value_refs_below(m2[k2].value, n) by {
        if k2 != key {
            assert(m.contains_key(k2));
        }
    }
}

/// Every glyph cursor back to (0, 0) and every edge policy back to wrapping.
fn clear_cursors(fbs: &mut Vec<Framebuffer>)
    ensures
        final(fbs)@.len() == old(fbs)@.len(),
        forall|j: int| 0 <= j < old(fbs)@.len() ==> (#[trigger] final(fbs)@[j]) == (Framebuffer {
            cur_col: 0,
            cur_row: 0,
            wrap: WrapMode::Wrap,
            ..old(fbs)@[j]
        }),
{
    let ghost old_fbs = fbs@;
    let mut i: usize = 0;
    while i < fbs.len()
        invariant
            fbs@.len() == old_fbs.len(),
            i <= old_fbs.len(),
            forall|j: int| 0 <= j < i ==> (#[trigger] fbs@[j]) == (Framebuffer { cur_col: 0, cur_row: 0, wrap: WrapMode::Wrap, ..old_fbs[j] }),
            forall|j: int| i <= j < old_fbs.len() ==> (#[trigger] fbs@[j]) == old_fbs[j],
        decreases old_fbs.len() - i,
    {
        let fb = fbs[i];
        fbs.set(i, Framebuffer { cur_col: 0, cur_row: 0, wrap: WrapMode::Wrap, ..fb });
        i += 1;
    }
}

pub struct Engine {
    program: Program,
    m: Machine,
}

impl Engine {
    pub closed spec fn wf(&self) -> bool {
        &&& self.program.wf()
        &&& self.m.state_ok()
        &&& self.m.stack_ok(self.program.blocks@.len())
    }

    pub closed spec fn is_done(&self) -> bool {
        self.m.done
    }

    pub closed spec fn seed_value(&self) -> u64 {
        self.m.seed
    }

    pub closed spec fn env_map(&self) -> Map<Seq<char>, Binding> {
        self.m.env@
    }

    pub closed spec fn turtles_view(&self) -> Seq<Turtle> {
        self.m.turtles@
    }

    pub closed spec fn rng_state(&self) -> u64 {
        self.m.rng@
    }

    pub closed spec fn frames(&self) -> Seq<ExecFrame> {
        self.m.stack@
    }

    pub closed spec fn buffers(&self) -> Seq<Framebuffer> {
        self.m.fbs@
    }

    pub closed spec fn active_buffer(&self) -> nat {
        self.m.active_fb as nat
    }

    pub closed spec fn blocks(&self) -> Seq<Vec<Stmt>> {
        self.program.blocks@
    }

    pub closed spec fn root(&self) -> nat {
        self.program.root as nat
    }

    /// The number of top-level statements.
    pub open spec fn root_len(&self) -> nat {
        self.blocks()[self.root() as int]@.len()
    }

    /// The defined initial state (before any statement runs): no bindings, no turtles, the
    /// generator freshly seeded, every glyph cursor at (0, 0), the first buffer active, and the
    /// program about to start at its first line.
    pub open spec fn at_start(&self) -> bool {
        &&& self.env_map() == Map::<Seq<char>, Binding>::empty()
        &&& self.turtles_view().len() == 0
        &&& self.rng_state() == seeded(self.seed_value())
        &&& self.active_buffer() == 0
        &&& forall|i: int| 0 <= i < self.buffers().len() ==> (#[trigger] self.buffers()[i]).cur_col == 0 && self.buffers()[i].cur_row == 0
            && self.buffers()[i].wrap == WrapMode::Wrap
        &&& self.is_done() == (self.root_len() == 0)
        &&& self.frames() == if self.root_len() == 0 {
            Seq::<ExecFrame>::empty()
        } else {
            seq![ExecFrame { block: self.root() as usize, idx: 0, kind: FrameKind::Once }]
        }
    }

    /// Buffer sizes are the same in both engines.
    pub open spec fn same_buffer_shape(&self, other: &Engine) -> bool {
        &&& self.buffers().len() == other.buffers().len()
        &&& forall|i: int| 0 <= i < self.buffers().len() ==> (#[trigger] self.buffers()[i]).cols == other.buffers()[i].cols
            && self.buffers()[i].rows == other.buffers()[i].rows
    }

    pub fn new() -> (e: Engine)
        ensures
            e.wf(),
            e.is_done(),
            e.root_len() == 0,
            e.seed_value() == DEFAULT_SEED,
            e.buffers() == seq![Framebuffer { cols: 40, rows: 30, wrap: WrapMode::Wrap, cur_col: 0, cur_row: 0 }],
            e.at_start(),
    {
        let mut fbs: Vec<Framebuffer> = Vec::new();
        fbs.push(Framebuffer { cols: 40, rows: 30, wrap: WrapMode::Wrap, cur_col: 0, cur_row: 0 });
        let e = Engine {
            program: Program::empty(),
            m: Machine {
                env: Env::new(),
                turtles: Vec::new(),
                rng: Rng::new(DEFAULT_SEED),
                fbs,
                active_fb: 0,
                stack: Vec::new(),
                done: true,
                seed: DEFAULT_SEED,
            },
        };
        proof {
            assert(e.frames() =~= Seq::<ExecFrame>::empty());
        }
        e
    }

    /// Set the render target for buffer 0 (host-supplied; the language never sets this).
    /// A zero size counts as one cell.
    pub fn set_render_target(&mut self, cols: u16, rows: u16)
        requires
            old(self).wf(),
        ensures
            final(self).wf(),
            final(self).buffers() == old(self).buffers().update(
                0,
                Framebuffer {
                    cols: if cols > 0 { cols } else { 1 },
                    rows: if rows > 0 { rows } else { 1 },
                    ..old(self).buffers()[0]
                },
            ),
            final(self).env_map() == old(self).env_map(),
            final(self).frames() == old(self).frames(),
            final(self).turtles_view() == old(self).turtles_view(),
            final(self).is_done() == old(self).is_done(),
    {
        let fb = self.m.fbs[0];
        let c = if cols > 0 { cols } else { 1 };
        let r = if rows > 0 { rows } else { 1 };
        self.m.fbs.set(0, Framebuffer { cols: c, rows: r, ..fb });
    }

    /// Choose the seed the next reset starts the generator from (zero means the default).
    pub fn reset_seed(&mut self, seed: u64)
        requires
            old(self).wf(),
        ensures
            final(self).wf(),
            final(self).seed_value() == seeded(seed),
            final(self).env_map() == old(self).env_map(),
            final(self).frames() == old(self).frames(),
            final(self).rng_state() == old(self).rng_state(),
            final(self).is_done() == old(self).is_done(),
    {
        self.m.seed = if seed == 0 { DEFAULT_SEED } else { seed };
    }

    pub fn done(&self) -> (r: bool)
        ensures
            r == self.is_done(),
    {
        self.m.done
    }

    /// Compile `src` and reset to the defined initial state. Returns the clearing events.
    pub fn load(&mut self, src: &str) -> (r: Vec<Event>)
        requires
            old(self).wf(),
        ensures
            final(self).wf(),
            final(self).at_start(),
            final(self).seed_value() == old(self).seed_value(),
            final(self).same_buffer_shape(old(self)),
            r@ == seq![Event::Draw(DrawOp::Clear { fb: 0 })],
            exists|m: Seq<LineView>| #[trigger] lines_fit(src@, m) && block(
                final(self).blocks(),
                m,
                0,
                0,
                final(self).blocks()[final(self).root() as int]@,
            ) == Some(m.len() as int),
    {
        self.m.stack = Vec::new();
        self.program = compile(src);
        self.reset()
    }

    /// Reset to the defined initial state: cleared buffers, empty environment, cursors at
    /// (0, 0), the generator re-seeded. A replay starts exactly as the first run did.
    pub fn reset(&mut self) -> (r: Vec<Event>)
        requires
            old(self).wf(),
        ensures
            final(self).wf(),
            final(self).at_start(),
            final(self).blocks() == old(self).blocks(),
            final(self).root() == old(self).root(),
            final(self).seed_value() == old(self).seed_value(),
            final(self).same_buffer_shape(old(self)),
            r@ == seq![Event::Draw(DrawOp::Clear { fb: 0 })],
    {
        self.m.env.clear();
        self.m.turtles = Vec::new();
        self.m.rng = Rng::new(self.m.seed);
        clear_cursors(&mut self.m.fbs);
        self.m.active_fb = 0;
        let root = self.program.root;
        let empty = self.program.blocks[root].len() == 0;
        self.m.done = empty;
        let mut stack: Vec<ExecFrame> = Vec::new();
        if !empty {
            stack.push(ExecFrame { block: root, idx: 0, kind: FrameKind::Once });
        }
        self.m.stack = stack;
        proof {
            assert(self.frames() =~= if self.root_len() == 0 {
                Seq::<ExecFrame>::empty()
            } else {
                seq![ExecFrame { block: self.root() as usize, idx: 0, kind: FrameKind::Once }]
            });
        }
        let mut out: Vec<Event> = Vec::new();
        out.push(Event::Draw(DrawOp::Clear { fb: 0 }));
        proof {
            assert(out@ =~= seq![Event::Draw(DrawOp::Clear { fb: 0 })]);
        }
        out
    }

    /// The line that will execute next (for the editor highlight), or `None` when nothing is
    /// left: the line of the statement the next `step` executes.
    pub fn current_line(&self) -> (r: Option<u32>)
        requires
            self.wf(),
        ensures
            r == if all_spent(self.frames(), self.blocks()) {
                None::<u32>
            } else {
                Some(line_of(next_stmt(self.frames(), self.blocks())))
            },
    {
        let mut st: Vec<ExecFrame> = Vec::new();
        let mut i: usize = 0;
        while i < self.m.stack.len()
            invariant
                i <= self.m.stack@.len(),
                st@ == self.m.stack@.subrange(0, i as int),
            decreases self.m.stack@.len() - i,
        {
            st.push(self.m.stack[i]);
            i += 1;
            proof {
                assert(st@ =~= self.m.stack@.subrange(0, i as int));
            }
        }
        proof {
            assert(st@ =~= self.m.stack@);
        }
        settle_frames(&mut st, &self.program.blocks);
        let len = st.len();
        if len == 0 {
            proof {
                assert(all_spent(st@, self.program.blocks@));
            }
            return None;
        }
        let top = st[len - 1];
        proof {
            assert(st@[len - 1].block < self.program.blocks@.len());
            assert(!spent(st@[len - 1], self.program.blocks@));
        }
        Some(self.program.blocks[top.block][top.idx].line())
    }

    /// A read-back snapshot of every live turtle, for the host's sprite layer.
    pub fn sprites(&self) -> (r: Vec<Sprite>)
        requires
            self.wf(),
        ensures
            r@.len() == self.turtles_view().len(),
            forall|i: int| 0 <= i < r@.len() ==> #[trigger] r@[i] == sprite_of(
                self.turtles_view()[i],
                i,
                self.buffers()[self.turtles_view()[i].buffer as int],
            ),
    {
        let mut out: Vec<Sprite> = Vec::new();
        let mut i: usize = 0;
        while i < self.m.turtles.len()
            invariant
                i <= self.m.turtles@.len(),
                self.wf(),
                out@.len() == i,
                forall|j: int| 0 <= j < i ==> #[trigger] out@[j] == sprite_of(
                    self.m.turtles@[j],
                    j,
                    self.m.fbs@[self.m.turtles@[j].buffer as int],
                ),
            decreases self.m.turtles@.len() - i,
        {
            let t = &self.m.turtles[i];
            assert(turtle_ok(self.m.turtles@[i as int], self.m.fbs@.len()));
            let fb = self.m.fbs[t.buffer as usize];
            assert(fb_ok(self.m.fbs@[t.buffer as int]));
            let x = wrap(t.pos.px_x(), fb.w());
            let y = wrap(t.pos.px_y(), fb.h());
            let hd = norm_deg(t.heading);
            out.push(Sprite {
                id: i,
                fb: t.buffer,
                x: x as u16,
                y: y as u16,
                heading_deg: hd as u16,
                tint: t.tint,
                pen_down: t.pen_down,
            });
            i += 1;
        }
        out
    }
}

// ---- drawing -----------------------------------------------------------------------------------

proof fn lemma_lerp_between(a: int, b: int, s: int, steps: int)
    requires
        0 <= s <= steps,
        steps >= 1,
    ensures
        a <= b ==> a <= lerp(a, b, s, steps) <= b,
        b < a ==> b <= lerp(a, b, s, steps) <= a,
{
    let d = b - a;
    if d >= 0 {
        assert(0 <= d * s <= d * steps) by (nonlinear_arith)
            requires
                d >= 0,
                0 <= s <= steps,
        ;
        vstd::arithmetic::div_mod::lemma_div_is_ordered(d * s, d * steps, steps);
        vstd::arithmetic::div_mod::lemma_div_multiples_vanish(d, steps);
        vstd::arithmetic::div_mod::lemma_div_pos_is_pos(d * s, steps);
        assert(steps * d == d * steps) by (nonlinear_arith);
    } else {
        let e = -d;
        assert(0 <= e * s <= e * steps) by (nonlinear_arith)
            requires
                e >= 0,
                0 <= s <= steps,
        ;
        assert(d * s == -(e * s)) by (nonlinear_arith)
            requires
                e == -d,
        ;
        vstd::arithmetic::div_mod::lemma_div_is_ordered(e * s, e * steps, steps);
        vstd::arithmetic::div_mod::lemma_div_multiples_vanish(e, steps);
        vstd::arithmetic::div_mod::lemma_div_pos_is_pos(e * s, steps);
        assert(steps * e == e * steps) by (nonlinear_arith);
        if d * s == 0 {
            assert(0int / steps == 0);
        }
    }
}

/// `n / d` truncated toward zero.
fn tdiv(n: i128, d: i128) -> (r: i128)
    requires
        d > 0,
        n > i128::MIN,
    ensures
        r == trunc_div(n as int, d as int),
{
    if n >= 0 {
        n / d
    } else {
        let m = -n;
        proof {
            vstd::arithmetic::div_mod::lemma_div_is_ordered(m as int, m as int, d as int);
            vstd::arithmetic::div_mod::lemma_div_pos_is_pos(m as int, d as int);
            vstd::arithmetic::div_mod::lemma_div_is_ordered_by_denominator(m as int, 1, d as int);
        }
        -(m / d)
    }
}

fn placed_at(p: i64, dim: i64, mode: WrapMode) -> (r: i64)
    ensures
        r == placed(p as int, dim as int, mode),
{
    match mode {
        WrapMode::Wrap => wrap(p, dim),
        WrapMode::Clamp => clamp(p, dim),
    }
}

/// Plot the line from `(x0, y0)` to `(x1, y1)` point by point into buffer `fb`.
fn plot_line(fb: u8, x0: i64, y0: i64, x1: i64, y1: i64, w: i64, h: i64, mode: WrapMode, pen: Colour, out: &mut Vec<Event>)
    requires
        -0x2000_0000_0000 <= x0 <= 0x2000_0000_0000,
        -0x2000_0000_0000 <= y0 <= 0x2000_0000_0000,
        -0x2000_0000_0000 <= x1 <= 0x2000_0000_0000,
        -0x2000_0000_0000 <= y1 <= 0x2000_0000_0000,
    ensures
        final(out)@ == old(out)@ + trail(fb, x0 as int, y0 as int, x1 as int, y1 as int, w as int, h as int, mode, pen),
{
    let dx: i128 = x1 as i128 - x0 as i128;
    let dy: i128 = y1 as i128 - y0 as i128;
    let ax = if dx < 0 { -dx } else { dx };
    let ay = if dy < 0 { -dy } else { dy };
    let mx = if ax > ay { ax } else { ay };
    let steps = if mx > 1 { mx } else { 1 };
    let colour = colour_name(pen);
    let ghost tr = trail(fb, x0 as int, y0 as int, x1 as int, y1 as int, w as int, h as int, mode, pen);
    assert(steps == span(x0 as int, y0 as int, x1 as int, y1 as int));
    let mut s: i128 = 0;
    while s <= steps
        invariant
            0 <= s <= steps + 1,
            steps == span(x0 as int, y0 as int, x1 as int, y1 as int),
            steps <= 0x4000_0000_0000,
            dx == x1 - x0,
            dy == y1 - y0,
            -0x4000_0000_0000 <= dx <= 0x4000_0000_0000,
            -0x4000_0000_0000 <= dy <= 0x4000_0000_0000,
            -0x2000_0000_0000 <= x0 <= 0x2000_0000_0000,
            -0x2000_0000_0000 <= y0 <= 0x2000_0000_0000,
            -0x2000_0000_0000 <= x1 <= 0x2000_0000_0000,
            -0x2000_0000_0000 <= y1 <= 0x2000_0000_0000,
            colour == colour_word(pen),
            tr == trail(fb, x0 as int, y0 as int, x1 as int, y1 as int, w as int, h as int, mode, pen),
            out@ == old(out)@ + tr.subrange(0, s as int),
        decreases steps + 1 - s,
    {
        assert(-0x4000_0000_0000 * 0x4000_0000_0000 <= dx * s <= 0x4000_0000_0000 * 0x4000_0000_0000) by (nonlinear_arith)
            requires
                -0x4000_0000_0000 <= dx <= 0x4000_0000_0000,
                0 <= s <= 0x4000_0000_0000,
        ;
        assert(-0x4000_0000_0000 * 0x4000_0000_0000 <= dy * s <= 0x4000_0000_0000 * 0x4000_0000_0000) by (nonlinear_arith)
            requires
                -0x4000_0000_0000 <= dy <= 0x4000_0000_0000,
                0 <= s <= 0x4000_0000_0000,
        ;
        let qx = tdiv(dx * s, steps);
        let qy = tdiv(dy * s, steps);
        proof {
            lemma_lerp_between(x0 as int, x1 as int, s as int, steps as int);
            lemma_lerp_between(y0 as int, y1 as int, s as int, steps as int);
        }
        let px = (x0 as i128 + qx) as i64;
        let py = (y0 as i128 + qy) as i64;
        let wx = placed_at(px, w, mode);
        let wy = placed_at(py, h, mode);
        let ev = Event::Draw(DrawOp::Plot { fb, x: wx as u16, y: wy as u16, colour });
        assert(ev == tr[s as int]);
        out.push(ev);
        assert(out@ =~= old(out)@ + tr.subrange(0, s + 1));
        s += 1;
    }
    assert(tr.subrange(0, tr.len() as int) =~= tr);
}

/// A whole number as a loop count: the value truncated toward zero, none when not positive.
fn loop_count(g: &Getal) -> (n: u64)
    ensures
        g@.0 <= 0 ==> n == 0,
        g@.0 > 0 ==> n == trunc_div(g@.0, g@.1),
{
    if g.numer() <= 0 {
        0
    } else {
        let t = g.trunc();
        let _d = g.denom();
        proof {
            vstd::arithmetic::div_mod::lemma_div_pos_is_pos(g@.0, g@.1);
        }
        t as u64
    }
}

/// `r` is the source text after the first `=`, trimmed (empty without an `=`).
pub open spec fn rhs_of(src: Seq<char>, r: Seq<char>) -> bool {
    &&& !src.contains('=') ==> r == Seq::<char>::empty()
    &&& src.contains('=') ==> exists|k: int, a: int, b: int|
        0 <= k < src.len() && src[k] == '=' && (forall|j: int| 0 <= j < k ==> #[trigger] src[j] != '=')
            && #[trigger] crate::text::trim_bounds(src.subrange(k + 1, src.len() as int), a, b) && r == src.subrange(
            k + 1,
            src.len() as int,
        ).subrange(a, b)
}

/// The source text after the first `=`, trimmed (empty without an `=`).
fn rhs_text(src: &str) -> (r: String)
    ensures
        rhs_of(src@, r@),
        !src@.contains('=') ==> r@ == Seq::<char>::empty(),
        src@.contains('=') ==> exists|k: int, a: int, b: int|
            0 <= k < src@.len() && src@[k] == '=' && (forall|j: int| 0 <= j < k ==> #[trigger] src@[j] != '=')
                && #[trigger] crate::text::trim_bounds(src@.subrange(k + 1, src@.len() as int), a, b)
                && r@ == src@.subrange(k + 1, src@.len() as int).subrange(a, b),
{
    let cs = str_chars(src);
    let mut k: usize = 0;
    while k < cs.len() && cs[k] != '='
        invariant
            k <= cs@.len(),
            cs@ == src@,
            forall|j: int| 0 <= j < k ==> #[trigger] src@[j] != '=',
        decreases cs@.len() - k,
    {
        k += 1;
    }
    if k < cs.len() {
        let rest = crate::text::copy_range(cs.as_slice(), k + 1, cs.len());
        let t = trim_chars(rest.as_slice());
        assert(src@.contains('=')) by {
            assert(src@[k as int] == '=');
        }
        chars_to_string(t.as_slice())
    } else {
        assert(!src@.contains('='));
        String::new()
    }
}

/// The tokens' source texts separated by single spaces.
pub open spec fn joined_text(ts: Seq<Token>) -> Seq<char>
    decreases ts.len(),
{
    if ts.len() == 0 {
        Seq::empty()
    } else {
        let pre = joined_text(ts.drop_last());
        if pre.len() > 0 {
            pre + seq![' '] + crate::expr::tok_source(ts.last().kind)
        } else {
            crate::expr::tok_source(ts.last().kind)
        }
    }
}

/// Best-effort source reconstruction from tokens, for error messages.
fn joined_src(toks: &[Token]) -> (s: String)
    ensures
        s@ == joined_text(toks@),
{
    let mut out: Vec<char> = Vec::new();
    let mut i: usize = 0;
    while i < toks.len()
        invariant
            i <= toks@.len(),
            out@ == joined_text(toks@.subrange(0, i as int)),
        decreases toks@.len() - i,
    {
        proof {
            assert(toks@.subrange(0, i + 1).drop_last() =~= toks@.subrange(0, i as int));
        }
        let ghost before = out@;
        if out.len() > 0 {
            out.push(' ');
        }
        let t = tok_text(&toks[i].kind);
        push_str(&mut out, t.as_str());
        proof {
            if before.len() > 0 {
                assert(out@ =~= before + seq![' '] + crate::expr::tok_source(toks@[i as int].kind));
            } else {
                assert(out@ =~= crate::expr::tok_source(toks@[i as int].kind));
            }
        }
        i += 1;
    }
    assert(toks@.subrange(0, toks@.len() as int) =~= toks@);
    chars_to_string(out.as_slice())
}

/// Values that refer to no turtle at all.
pub open spec fn refers_to_nothing(v: Value) -> bool {
    !(v is Schildpad) && !(v is Frame)
}

/// The types a value can be cast to and from.
pub open spec fn castable(t: Type) -> bool {
    t == Type::Getal || t == Type::Draairichting || t == Type::Toon || t == Type::Oscillator || t == Type::Omhullende || t
        == Type::Kleur || t == Type::Tekst
}

/// Cast a value to a target type (the postfix cast). Errors rather than guessing: a value of
/// a castable type stays as it is; a draairichting becomes the same number; a number becomes a
/// draairichting truncated toward zero; anything else is a type mismatch.
fn coerce_to(t: Type, v: Value, line: u32) -> (r: Result<Value, SchildpadError>)
    ensures
        error_line_is(r, line),
        r is Ok ==> refers_to_nothing(r->Ok_0),
        r is Ok ==> crate::value::value_type(r->Ok_0) == t,
        castable(t) && crate::value::value_type(v) == t ==> r == Ok::<Value, SchildpadError>(v),
        t == Type::Getal && v is Draairichting && v->Draairichting_0 > i64::MIN ==> r is Ok && r->Ok_0->Getal_0@ == (
            v->Draairichting_0 as int,
            1int,
        ),
        t == Type::Draairichting && v is Getal ==> r is Ok && r->Ok_0->Draairichting_0 == trunc_div(v->Getal_0@.0, v->Getal_0@.1),
        !(castable(t) && crate::value::value_type(v) == t) && !(t == Type::Getal && v is Draairichting) && !(t
            == Type::Draairichting && v is Getal) ==> r is Err && r->Err_0.kind is TypeMismatch,
{
    let got = string_of(v.type_of().nl());
    match (t, v) {
        (Type::Getal, Value::Getal(n)) => Ok(Value::Getal(n)),
        (Type::Getal, Value::Draairichting(d)) => {
            if d > i64::MIN {
                Ok(Value::Getal(Getal::from_i64(d)))
            } else {
                Err(err(line, ErrorKind::NumberOutOfRange))
            }
        },
        (Type::Draairichting, Value::Getal(n)) => Ok(Value::Draairichting(n.trunc())),
        (Type::Draairichting, Value::Draairichting(d)) => Ok(Value::Draairichting(d)),
        (Type::Toon, Value::Toon(x)) => Ok(Value::Toon(x)),
        (Type::Oscillator, Value::Oscillator(o)) => Ok(Value::Oscillator(o)),
        (Type::Omhullende, Value::Omhullende(e)) => Ok(Value::Omhullende(e)),
        (Type::Kleur, Value::Kleur(c)) => Ok(Value::Kleur(c)),
        (Type::Tekst, Value::Tekst(s)) => Ok(Value::Tekst(s)),
        (want, _) => Err(err(line, ErrorKind::TypeMismatch { wanted: string_of(want.nl()), got })),
    }
}

/// The tone a token of a tune stands for, as its pitch (none for a rest) and its beats: a note
/// with its beats, a number as a pitch of one beat, `stilte` as a rest of one beat.
pub open spec fn tone_of_tok(t: Tok) -> Option<(Option<(int, int)>, (int, int))> {
    match t {
        Tok::Note(n, b) => Some((Some(note_pitch(n)), b@)),
        Tok::Number(g) => Some((Some(g@), (1, 1))),
        Tok::Const(c) => if constant_meaning(c) == ConstVal::Rest { Some((None, (1, 1))) } else { None },
        _ => None,
    }
}

/// A tone's pitch and beats.
pub open spec fn toon_pb(x: Toon) -> (Option<(int, int)>, (int, int)) {
    (match x.pitch_hz {
        Some(g) => Some(g@),
        None => None,
    }, x.beats@)
}

/// `d` is the tune of the tokens `toks`: one plain sine tone per token, at 120 beats a minute.
pub open spec fn tune_is(toks: Seq<Token>, d: Deuntje) -> bool {
    &&& d.tempo_bpm == 120
    &&& d.voices@.len() == toks.len()
    &&& forall|i: int| 0 <= i < toks.len() ==> tone_of_tok(#[trigger] toks[i].kind) == Some(toon_pb(d.voices@[i]))
        && d.voices@[i].osc == Osc::Sinus && d.voices@[i].env == Envelope::Kort
}

/// Gather a run of note/stilte/number tokens into a deuntje.
fn gather_deuntje(toks: &[Token], line: u32) -> (r: Result<Deuntje, SchildpadError>)
    ensures
        error_line_is(r, line),
        r is Ok <==> forall|i: int| 0 <= i < toks@.len() ==> (#[trigger] tone_of_tok(toks@[i].kind)) is Some,
        r is Ok ==> tune_is(toks@, r->Ok_0),
{
    let mut voices: Vec<Toon> = Vec::new();
    let mut i: usize = 0;
    let one = Getal::from_i64(1);
    while i < toks.len()
        invariant
            i <= toks@.len(),
            voices@.len() == i,
            one@ == (1int, 1int),
            forall|j: int| 0 <= j < i ==> tone_of_tok(#[trigger] toks@[j].kind) == Some(toon_pb(voices@[j])) && voices@[j].osc
                == Osc::Sinus && voices@[j].env == Envelope::Kort,
        decreases toks@.len() - i,
    {
        match &toks[i].kind {
            Tok::Note(n, beats) => voices.push(Toon::pitched(note_hz(*n), *beats)),
            Tok::Number(n) => voices.push(Toon::pitched(*n, one)),
            Tok::Const(c) => match constant_value(*c) {
                ConstVal::Rest => voices.push(Toon::rest(one)),
                _ => {
                    proof {
                        assert(tone_of_tok(toks@[i as int].kind) is None);
                    }
                    return Err(err(line, ErrorKind::UnconsumedTokens { leftover: tok_text(&toks[i].kind) }));
                },
            },
            _ => {
                proof {
                    assert(tone_of_tok(toks@[i as int].kind) is None);
                }
                return Err(err(line, ErrorKind::UnconsumedTokens { leftover: tok_text(&toks[i].kind) }));
            },
        }
        i += 1;
    }
    Ok(Deuntje { voices, tempo_bpm: 120 })
}

fn voice_of(t: &Toon) -> (v: Voice)
    ensures
        v.pitch_hz == t.pitch_hz,
        v.beats == t.beats,
        v.osc == osc_word(t.osc),
        v.env == envelope_word(t.env),
{
    Voice { pitch_hz: t.pitch_hz, beats: t.beats, osc: osc_name(t.osc), env: envelope_name(t.env) }
}

fn plain_voice(hz: Option<Getal>, beats: Getal) -> (v: Voice)
    ensures
        v.pitch_hz == hz,
        v.beats == beats,
        v.osc == "sinus",
        v.env == "kort",
{
    Voice { pitch_hz: hz, beats, osc: "sinus", env: "kort" }
}

fn is_eq_op(t: &Tok) -> (r: bool)
    ensures
        r == (*t == Tok::Op(61u8)),
{
    match t {
        Tok::Op(o) => *o == 61u8,
        _ => false,
    }
}

/// A word of the language that is not a type word: a verb, colour, oscillator, envelope,
/// note, constant, keyword, `random` or comparison.
pub open spec fn is_reserved_non_type(t: Tok) -> bool {
    t is Verb || t is Colour || t is Osc || t is Env || t is Note || t is Const || t == Tok::Maak || t == Tok::Print || t
        == Tok::Random || t is Loop || t == Tok::LoopKeer || t == Tok::If || t == Tok::Else || t == Tok::Stop || t == Tok::WrapMode
        || t is Compare
}

/// A reserved word that is not a type word (it can never be a name).
fn reserved_non_type(t: &Tok) -> (r: bool)
    ensures
        r == is_reserved_non_type(*t),
{
    match t {
        Tok::Verb(_) | Tok::Colour(_) | Tok::Osc(_) | Tok::Env(_) | Tok::Note(_, _) | Tok::Const(_) | Tok::Maak
        | Tok::Print | Tok::Random | Tok::Loop(_) | Tok::LoopKeer | Tok::If | Tok::Else | Tok::Stop
        | Tok::WrapMode | Tok::Compare(_) => true,
        _ => false,
    }
}

impl Machine {
    /// `stop`: unwind the frame stack up to and including the innermost loop frame, so
    /// execution resumes after that loop. Outside any loop it does nothing.
    fn do_stop(&mut self)
        ensures
            innermost_loop(old(self).stack@) < 0 ==> final(self).stack@ == old(self).stack@,
            innermost_loop(old(self).stack@) >= 0 ==> final(self).stack@ == old(self).stack@.subrange(
                0,
                innermost_loop(old(self).stack@),
            ),
            final(self).env@ == old(self).env@,
            final(self).turtles@ == old(self).turtles@,
            final(self).fbs@ == old(self).fbs@,
            final(self).active_fb == old(self).active_fb,
            final(self).done == old(self).done,
            final(self).seed == old(self).seed,
            final(self).rng@ == old(self).rng@,
    {
        let mut k = self.stack.len();
        assert(self.stack@.subrange(0, k as int) =~= self.stack@);
        while k > 0 && !is_loop_frame_exec(&self.stack[k - 1])
            invariant
                k <= self.stack@.len(),
                innermost_loop(self.stack@) == innermost_loop(self.stack@.subrange(0, k as int)),
            decreases k,
        {
            proof {
                assert(self.stack@.subrange(0, k as int).drop_last() =~= self.stack@.subrange(0, k - 1));
            }
            k -= 1;
        }
        if k == 0 {
            proof {
                assert(self.stack@.subrange(0, 0) =~= Seq::<ExecFrame>::empty());
            }
            return;
        }
        proof {
            assert(self.stack@.subrange(0, k as int).last() == self.stack@[k - 1]);
        }
        let ghost target = self.stack@.subrange(0, k - 1);
        let mut st: Vec<ExecFrame> = Vec::new();
        std::mem::swap(&mut st, &mut self.stack);
        st.truncate(k - 1);
        self.stack = st;
        assert(self.stack@ =~= target);
    }
}

fn is_loop_frame_exec(f: &ExecFrame) -> (r: bool)
    ensures
        r == is_loop_frame(*f),
{
    match f.kind {
        FrameKind::Once => false,
        _ => true,
    }
}

/// The plots a move of turtle `t` to `(nx, ny)` (Q8) leaves in buffer `fb`: its trail when
/// the pen is down, nothing when it is up.
pub open spec fn move_trail(t: Turtle, fb: Framebuffer, nx: int, ny: int) -> Seq<Event> {
    if t.pen_down {
        trail(
            t.buffer,
            round_to_px_spec(t.pos.x as int),
            round_to_px_spec(t.pos.y as int),
            round_to_px_spec(nx),
            round_to_px_spec(ny),
            fb.cols * 8,
            fb.rows * 8,
            fb.wrap,
            t.pen,
        )
    } else {
        Seq::<Event>::empty()
    }
}

/// What a turtle verb with filled slots `sv` did when it succeeded: the turtle the slots name,
/// and only that turtle, changed as the verb says (`vooruit`/`achteruit` move it by the
/// distance, `draai` turns it, `pen` sets its colour and lowers the pen, `penomhoog` and
/// `penomlaag` lift and lower it), and `out` holds the plots it left.
pub open spec fn verb_effect(v: Verb, sv: SlotValues, ts: Seq<Turtle>, ts2: Seq<Turtle>, fbs: Seq<Framebuffer>, out: Seq<Event>) -> bool {
    sv.schildpad is Some && ({
        let id = sv.schildpad->0 as int;
        let t = ts[id];
        match v {
            Verb::Vooruit => match advance_spec(t.pos, t.heading as int, dist_q8_of(sv.getal->0)) {
                Some((nx, ny)) => ts2 == ts.update(id, Turtle { pos: FixedPos { x: nx as i64, y: ny as i64 }, ..t }) && out
                    == move_trail(t, fbs[t.buffer as int], nx, ny),
                None => false,
            },
            Verb::Achteruit => match advance_spec(t.pos, t.heading as int, -dist_q8_of(sv.getal->0)) {
                Some((nx, ny)) => ts2 == ts.update(id, Turtle { pos: FixedPos { x: nx as i64, y: ny as i64 }, ..t }) && out
                    == move_trail(t, fbs[t.buffer as int], nx, ny),
                None => false,
            },
            Verb::Draai => ts2 == ts.update(id, Turtle { heading: ((t.heading + sv.draai->0) % 360) as i64, ..t }) && out.len() == 0,
            Verb::Pen => ts2 == ts.update(id, Turtle { pen: sv.kleur->0, pen_down: true, ..t }) && out.len() == 0,
            Verb::Penomhoog => ts2 == ts.update(id, Turtle { pen_down: false, ..t }) && out.len() == 0,
            Verb::Penomlaag => ts2 == ts.update(id, Turtle { pen_down: true, ..t }) && out.len() == 0,
            Verb::Play => false,
        }
    })
}

/// The first verb on a line.
pub open spec fn first_verb(toks: Seq<Token>) -> Option<Verb>
    decreases toks.len(),
{
    if toks.len() == 0 {
        None
    } else {
        match toks[0].kind {
            Tok::Verb(v) => Some(v),
            _ => first_verb(toks.drop_first()),
        }
    }
}

/// The verb a line is a statement of: the first verb, unless the line starts with `maak`,
/// `print`, `wrapmode`, `stop`, `random` or is an assignment `naam = …`.
pub open spec fn verb_line(toks: Seq<Token>) -> Option<Verb> {
    if toks.len() == 0 {
        None
    } else {
        match toks[0].kind {
            Tok::Maak => None,
            Tok::Print => None,
            Tok::WrapMode => None,
            Tok::Stop => None,
            Tok::Random => None,
            Tok::Name(_) => if toks.len() > 1 && toks[1].kind == Tok::Op(61) { None } else { first_verb(toks) },
            _ => first_verb(toks),
        }
    }
}

/// What `random` may draw for a verb: a whole distance from 0 to 100 for `vooruit`, a quarter
/// turn left or right for `draai`.
pub open spec fn random_domain(v: Verb, sv: SlotValues) -> bool {
    match v {
        Verb::Vooruit => sv.getal matches Some(g) && 0 <= g@.0 <= 100 && g@.1 == 1,
        Verb::Draai => sv.draai == Some(-90i64) || sv.draai == Some(90i64),
        _ => true,
    }
}

/// The statement's tokens filled the slots `sv` (read from the tokens whatever their order; a
/// `random` draws from the verb's domain) and the verb did what it says.
pub open spec fn verb_done(v: Verb, toks: Seq<Token>, env: Map<Seq<char>, Binding>, ts: Seq<Turtle>, ts2: Seq<Turtle>, fbs: Seq<Framebuffer>, out: Seq<Event>) -> bool {
    exists|sv: SlotValues|
        #[trigger] slots_from_tokens(SlotValues::empty_spec(), toks, env, sv, has_random(toks)) && verb_effect(v, sv, ts, ts2, fbs, out)
            && (has_random(toks) ==> random_domain(v, sv))
}

/// A named action `f` invoked from the statement `toks`, whose own name stands at `skip`: the
/// remaining tokens filled the slots the action left open, and its verb did what it says.
pub open spec fn action_done(f: PartialFrame, skip: int, toks: Seq<Token>, env: Map<Seq<char>, Binding>, ts: Seq<Turtle>, ts2: Seq<Turtle>, fbs: Seq<Framebuffer>, out: Seq<Event>) -> bool {
    exists|sv: SlotValues|
        #[trigger] slots_from_tokens(f.filled, without_at(toks, skip), env, sv, has_random(without_at(toks, skip))) && verb_effect(
            f.verb,
            sv,
            ts,
            ts2,
            fbs,
            out,
        )
}

/// When invoking the named action `f` with the remaining tokens `rest` succeeds (`ok`): only
/// when they fill the slots it left open, and, when they do, it fails only on a move out of
/// range.
pub open spec fn curry_succeeds(f: PartialFrame, rest: Seq<Token>, env: Map<Seq<char>, Binding>, ts: Seq<Turtle>, ok: bool) -> bool {
    &&& ok ==> verb_resolves(f.verb, f.filled, rest, env, false)
    &&& verb_resolves(f.verb, f.filled, rest, env, false) && !ok ==> exists|sv: SlotValues|
        #[trigger] slots_from_tokens(f.filled, rest, env, sv, has_random(rest)) && move_refused(f.verb, sv, ts)
}

/// The first plain name on a line that is bound to a named action, with its position.
pub open spec fn first_action(toks: Seq<Token>, env: Map<Seq<char>, Binding>, from: int) -> Option<(int, PartialFrame)>
    decreases toks.len() - from,
{
    if from < 0 || from >= toks.len() {
        None
    } else if bound(env, toks[from].kind) matches Some(b) && b.value is Frame {
        Some((from, bound(env, toks[from].kind)->0.value->Frame_0))
    } else {
        first_action(toks, env, from + 1)
    }
}

/// A line that is neither `maak`, `print`, `wrapmode`, `stop`, bare `random` nor a rebinding,
/// and holds no verb: it invokes a named action.
pub open spec fn action_line(toks: Seq<Token>) -> bool {
    &&& toks.len() > 0
    &&& toks[0].kind != Tok::Maak
    &&& toks[0].kind != Tok::Print
    &&& toks[0].kind != Tok::WrapMode
    &&& toks[0].kind != Tok::Stop
    &&& toks[0].kind != Tok::Random
    &&& !(toks[0].kind is Name && toks.len() > 1 && toks[1].kind == Tok::Op(61))
    &&& first_verb(toks) is None
}

proof fn lemma_first_verb(toks: Seq<Token>, k: int)
    requires
        0 <= k <= toks.len(),
        forall|j: int| 0 <= j < k ==> !(#[trigger] toks[j].kind is Verb),
    ensures
        k < toks.len() && toks[k].kind is Verb ==> first_verb(toks) == Some(toks[k].kind->Verb_0),
        k == toks.len() ==> first_verb(toks) is None,
    decreases k,
{
    if k > 0 {
        let rest = toks.drop_first();
        assert forall|j: int| 0 <= j < k - 1 implies !(#[trigger] rest[j].kind is Verb) by {
            assert(rest[j] == toks[j + 1]);
        }
        lemma_first_verb(rest, k - 1);
        if k < toks.len() {
            assert(rest[k - 1] == toks[k]);
        }
    } else if toks.len() == 0 {
    }
}

/// The position of the first `=` at or after `from` (the length when there is none).
pub open spec fn first_eq(toks: Seq<Token>, from: int) -> int
    decreases toks.len() - from,
{
    if from < 0 || from >= toks.len() {
        toks.len() as int
    } else if toks[from].kind == Tok::Op(61) {
        from
    } else {
        first_eq(toks, from + 1)
    }
}

proof fn lemma_first_eq(toks: Seq<Token>, from: int, e: int)
    requires
        0 <= from <= e <= toks.len(),
        forall|j: int| from <= j < e ==> #[trigger] toks[j].kind != Tok::Op(61),
        e == toks.len() || toks[e].kind == Tok::Op(61),
    ensures
        first_eq(toks, from) == e,
    decreases e - from,
{
    if from < e {
        lemma_first_eq(toks, from + 1, e);
    }
}

/// The binding target of a `maak` line: one name and an optional type word, in either order,
/// left of the first `=` (or on the whole line without one).
pub open spec fn maak_target(toks: Seq<Token>) -> Option<(Seq<char>, Option<Type>)> {
    let e = first_eq(toks, 1);
    if e == 2 && toks[1].kind is Name {
        Some((toks[1].kind->Name_0@, None))
    } else if e == 3 && toks[1].kind is Name && toks[2].kind is Type {
        Some((toks[1].kind->Name_0@, Some(toks[2].kind->Type_0)))
    } else if e == 3 && toks[1].kind is Type && toks[2].kind is Name {
        Some((toks[2].kind->Name_0@, Some(toks[1].kind->Type_0)))
    } else {
        None
    }
}

proof fn lemma_first_eq_bounds(a: Seq<Token>, from: int)
    requires
        0 <= from <= a.len(),
    ensures
        from <= first_eq(a, from) <= a.len(),
    decreases a.len() - from,
{
    if from < a.len() {
        lemma_first_eq_bounds(a, from + 1);
    }
}

proof fn lemma_first_eq_same_suffix(a: Seq<Token>, b: Seq<Token>, from: int)
    requires
        a.len() == b.len(),
        0 <= from,
        forall|i: int| from <= i < a.len() ==> #[trigger] a[i] == b[i],
    ensures
        first_eq(a, from) == first_eq(b, from),
    decreases a.len() - from,
{
    if from < a.len() {
        lemma_first_eq_same_suffix(a, b, from + 1);
    }
}

/// `maak` reads its name and its type word in either order: a line with the two swapped makes
/// the same binding.
pub proof fn law_maak_order_free(a: Seq<Token>, b: Seq<Token>)
    requires
        a.len() == b.len(),
        a.len() >= 3,
        a[1] == b[2],
        a[2] == b[1],
        a[1].kind is Name && a[2].kind is Type || a[1].kind is Type && a[2].kind is Name,
        forall|i: int| 0 <= i < a.len() && i != 1 && i != 2 ==> #[trigger] a[i] == b[i],
    ensures
        maak_target(a) == maak_target(b),
        forall|env: Map<Seq<char>, Binding>, env2: Map<Seq<char>, Binding>, ts: Seq<Turtle>, ts2: Seq<Turtle>, active: nat|
            #[trigger] maak_effect(a, env, env2, ts, ts2, active) == maak_effect(b, env, env2, ts, ts2, active),
{
    lemma_first_eq_same_suffix(a, b, 3);
    assert(first_eq(a, 2) == first_eq(a, 3));
    assert(first_eq(b, 2) == first_eq(b, 3));
    assert(first_eq(a, 1) == first_eq(a, 3));
    assert(first_eq(b, 1) == first_eq(b, 3));
    let e = first_eq(a, 1);
    lemma_first_eq_bounds(a, 3);
    if e < a.len() {
        assert(a.subrange(e + 1, a.len() as int) =~= b.subrange(e + 1, b.len() as int));
    }
}

/// The number or text `pv` can be cast to type `t`.
pub open spec fn castable_to(t: Type, pv: Option<Plain>) -> bool {
    match pv {
        Some(Plain::Num(_)) => t == Type::Getal || t == Type::Draairichting,
        Some(Plain::Text(_)) => t == Type::Tekst,
        None => false,
    }
}

/// The value part of a `maak` line fits its target: without a value any target does; a bare
/// name takes a named action of a turtle verb whose slots resolve, a value over numbers and
/// texts, or a lone literal; a `schildpad` takes no value; a `deuntje` takes tone tokens only;
/// another type takes a number or text that casts to it, or a lone literal of that type.
pub open spec fn maak_value_ok(ty: Option<Type>, vals: Seq<Token>, has_value: bool, env: Map<Seq<char>, Binding>) -> bool {
    !has_value || match ty {
        None => match first_verb(vals) {
            Some(v) => v != Verb::Play && names_plain(vals) && getal_checkable(vals, env) && verb_resolves(
                v,
                SlotValues::empty_spec(),
                vals,
                env,
                true,
            ),
            None => (plain_only(vals, env) && plain_value(vals, env) is Some) || (vals.len() == 1 && is_literal(vals[0].kind)),
        },
        Some(t) => if t == Type::Schildpad {
            false
        } else if t == Type::Deuntje {
            forall|i: int| 0 <= i < vals.len() ==> (#[trigger] tone_of_tok(vals[i].kind)) is Some
        } else {
            (plain_only(vals, env) && castable_to(t, plain_value(vals, env))) || (vals.len() == 1 && is_literal(vals[0].kind)
                && castable(t) && literal_type(vals[0].kind) == t)
        },
    }
}

/// How a `maak` line turns out (`fail` is the error, if any): a plain target with a value that
/// fits it succeeds; no target is `MaakNeedsName`; a first word that is neither a name nor a
/// type word is refused as reserved or as not a word; two type words or two names are refused;
/// a bare `random` as the value has no domain; `play` cannot be named.
pub open spec fn maak_outcome(toks: Seq<Token>, env: Map<Seq<char>, Binding>, fail: Option<SchildpadError>) -> bool {
    let e = first_eq(toks, 1);
    let vals = if e < toks.len() { toks.subrange(e + 1, toks.len() as int) } else { Seq::empty() };
    &&& toks.len() == 1 || (toks.len() > 1 && toks[1].kind == Tok::Op(61)) ==> fail is Some && fail->0.kind == ErrorKind::MaakNeedsName
    &&& toks.len() > 1 && !(toks[1].kind is Name) && !(toks[1].kind is Type) && toks[1].kind != Tok::Op(61) ==> fail is Some && if is_reserved_non_type(
        toks[1].kind,
    ) {
        fail->0.kind is ReservedAsName && fail->0.kind->ReservedAsName_word@ == crate::expr::tok_source(toks[1].kind)
    } else {
        fail->0.kind is MaakNameNotAWord && fail->0.kind->MaakNameNotAWord_word@ == crate::expr::tok_source(toks[1].kind)
    }
    &&& e > 2 && toks[1].kind is Type && toks[2].kind is Type ==> fail is Some && fail->0.kind is ReservedAsName
        && fail->0.kind->ReservedAsName_word@ == crate::expr::tok_source(toks[2].kind)
    &&& e > 2 && toks[1].kind is Name && toks[2].kind is Name ==> fail is Some && fail->0.kind is MaakNotUnderstood
        && fail->0.kind->MaakNotUnderstood_src@ == joined_text(toks) && fail->0.kind->MaakNotUnderstood_name@ == toks[1].kind->Name_0@
    &&& match maak_target(toks) {
        Some((raw, ty)) => (!raw.contains('\'') || segments_evaluable(raw, env)) ==> {
            &&& maak_value_ok(ty, vals, e < toks.len(), env) ==> fail is None
            &&& ty is None && e < toks.len() && vals.len() > 0 && vals[0].kind == Tok::Random && first_verb(vals) is None ==> fail is Some
                && fail->0.kind == ErrorKind::BareRandom
            &&& ty is None && e < toks.len() && first_verb(vals) == Some(Verb::Play) ==> fail is Some && fail->0.kind
                == ErrorKind::CurryPlay
        },
        None => true,
    }
}

/// `v` is the number or text `pv` cast to type `t`: a number stays a number, or becomes a
/// draairichting truncated toward zero; a text stays a text.
pub open spec fn cast_of(t: Type, pv: Option<Plain>, v: Value) -> bool {
    match pv {
        Some(Plain::Num(x)) => (t == Type::Getal && plain_of(v) == Some(Plain::Num(x))) || (t == Type::Draairichting && v is Draairichting
            && v->Draairichting_0 == trunc_div(x.0, x.1)),
        Some(Plain::Text(s)) => t == Type::Tekst && plain_of(v) == Some(Plain::Text(s)),
        None => false,
    }
}

/// What a successful `maak` line did. Its target is one name and at most one type word, in
/// either order. For a plain name: that name (and no other) is bound — to nil without a value;
/// to the exact number or text of a value over numbers and texts, under that value's type; to
/// a named action of the verb when the value holds one (never with `random` in it); a
/// `schildpad` to a new turtle at the
/// origin, heading 0, pen down in its default colour, in the active buffer; a `deuntje` to the
/// tune of its tokens; another typed name to its value cast to that type (nil without a value).
pub open spec fn maak_effect(
    toks: Seq<Token>,
    env: Map<Seq<char>, Binding>,
    env2: Map<Seq<char>, Binding>,
    ts: Seq<Turtle>,
    ts2: Seq<Turtle>,
    active: nat,
) -> bool {
    let e = first_eq(toks, 1);
    let vals = if e < toks.len() { toks.subrange(e + 1, toks.len() as int) } else { Seq::empty() };
    binding_made(maak_target(toks), vals, e < toks.len(), env, env2, ts, ts2, active)
}

/// What binding the target `target` (a name and an optional type word) with the value tokens
/// `vals` (when `has_value`) made; see `maak_effect`.
pub open spec fn binding_made(
    target: Option<(Seq<char>, Option<Type>)>,
    vals: Seq<Token>,
    has_value: bool,
    env: Map<Seq<char>, Binding>,
    env2: Map<Seq<char>, Binding>,
    ts: Seq<Turtle>,
    ts2: Seq<Turtle>,
    active: nat,
) -> bool {
    match target {
        None => false,
        Some((raw, ty)) => {
            &&& !raw.contains('\'') ==> binding_as(raw, ty, vals, has_value, env, env2, ts, ts2, active)
            &&& raw.contains('\'') ==> exists|n: Seq<char>| #[trigger] built_name(raw, env, n) && binding_as(n, ty, vals, has_value, env, env2, ts, ts2, active)
        },
    }
}

/// The binding of the name `raw` (with the optional type word `ty`) that `maak` made.
pub open spec fn binding_as(
    raw: Seq<char>,
    ty: Option<Type>,
    vals: Seq<Token>,
    has_value: bool,
    env: Map<Seq<char>, Binding>,
    env2: Map<Seq<char>, Binding>,
    ts: Seq<Turtle>,
    ts2: Seq<Turtle>,
    active: nat,
) -> bool {
    {
        let k = key_of(raw);
        let b = env2[k];
        &&& env2.contains_key(k)
        &&& env2.remove(k) == env.remove(k)
        &&& b.name@ == raw
        &&& match ty {
            None => ts2 == ts && if !has_value {
                b.ty == Type::Nil && b.value is Nil
            } else {
                &&& first_verb(vals) is None && arith_only(vals, env) ==> b.ty == Type::Getal && b.value is Getal
                    && Some(b.value->Getal_0@) == arith_value(vals, env)
                &&& first_verb(vals) is None ==> b.ty == crate::value::value_type(b.value)
                &&& first_verb(vals) is None && plain_only(vals, env) ==> plain_of(b.value) == plain_value(vals, env)
                &&& vals.len() == 1 && is_literal(vals[0].kind) ==> literal_value_ok(vals[0].kind, b.value)
                &&& first_verb(vals) matches Some(v) ==> b.ty == Type::Nil && b.value is Frame && b.value->Frame_0.verb == v
                    && !has_random(vals)
            },
            Some(t) => if t == Type::Schildpad {
                &&& !has_value
                &&& b.ty == Type::Schildpad
                &&& b.value == Value::Schildpad(ts.len() as usize)
                &&& ts2.len() == ts.len() + 1
                &&& ts2.drop_last() == ts
                &&& ts2.last().name@ == raw
                &&& ts2.last().pos == (FixedPos { x: 0, y: 0 })
                &&& ts2.last().heading == 0
                &&& ts2.last().pen == default_pen_spec(ts.len() as int)
                &&& ts2.last().pen_down
                &&& ts2.last().buffer == active as u8
            } else {
                &&& ts2 == ts
                &&& b.ty == t
                &&& !has_value ==> b.value is Nil
                &&& t == Type::Getal && has_value && arith_only(vals, env) ==> b.value is Getal && Some(b.value->Getal_0@)
                    == arith_value(vals, env)
                &&& t == Type::Deuntje && has_value ==> b.value is Deuntje && tune_is(vals, b.value->Deuntje_0)
                &&& t != Type::Deuntje && has_value && plain_only(vals, env) ==> cast_of(t, plain_value(vals, env), b.value)
                &&& t != Type::Deuntje && castable(t) && vals.len() == 1 && is_literal(vals[0].kind) && literal_type(vals[0].kind) == t
                    ==> literal_value_ok(vals[0].kind, b.value)
            },
        }
    }
}

/// What one plain line did, given what it returned (`res`), the events it emitted (`evs`) and
/// the generator before and after (`st`, `st2`): a `play` line with plain names played its
/// voices; a turtle verb with plain names did its verb; a line without a verb invoked the first
/// named action it names; `maak` made its binding; `print` and
/// `wrapmode` drew on the active buffer `active`; a rebinding rebound its name, and one of a
/// name never bound fails.
/// A line that is not `maak`, `print`, `wrapmode`, `stop`, bare `random` or a rebinding.
pub open spec fn rest_line(toks: Seq<Token>) -> bool {
    &&& toks.len() > 0
    &&& toks[0].kind != Tok::Maak
    &&& toks[0].kind != Tok::Print
    &&& toks[0].kind != Tok::WrapMode
    &&& toks[0].kind != Tok::Stop
    &&& toks[0].kind != Tok::Random
    &&& !(toks[0].kind is Name && toks.len() > 1 && toks[1].kind == Tok::Op(61))
}

/// What a `play` line with plain names did (see `simple_done`).
pub open spec fn play_done(
    toks: Seq<Token>,
    env: Map<Seq<char>, Binding>,
    env2: Map<Seq<char>, Binding>,
    ts: Seq<Turtle>,
    ts2: Seq<Turtle>,
    fbs: Seq<Framebuffer>,
    fbs2: Seq<Framebuffer>,
    st: u64,
    st2: u64,
    evs: Seq<Event>,
    fail: Option<SchildpadError>,
) -> bool {
    let ok = fail is None;
    verb_line(toks) == Some(Verb::Play) && names_plain(toks) ==> match play_upto(toks, toks.len() as int, env, st) {
        None => fail is Some,
        Some((vs, st1)) => st2 == st1 && (ok <==> vs.len() > 0) && (ok ==> {
            &&& env2 == env
            &&& ts2 == ts
            &&& fbs2 == fbs
            &&& evs.len() == 1
            &&& match evs[0] {
                Event::Audio(AudioCmd::Sequence { tempo_bpm, voices }) => tempo_bpm == 120 && voices@.map_values(|v: Voice| voice_v(v)) == vs,
                _ => false,
            }
        }),
    }
}

/// What a turtle-verb line with plain names did (see `simple_done`).
pub open spec fn turtle_line_done(
    toks: Seq<Token>,
    env: Map<Seq<char>, Binding>,
    env2: Map<Seq<char>, Binding>,
    ts: Seq<Turtle>,
    ts2: Seq<Turtle>,
    fbs: Seq<Framebuffer>,
    fbs2: Seq<Framebuffer>,
    evs: Seq<Event>,
    fail: Option<SchildpadError>,
) -> bool {
    &&& fail is None && verb_line(toks) is Some && verb_line(toks)->0 != Verb::Play && names_plain(toks) ==> {
        &&& env2 == env
        &&& fbs2 == fbs
        &&& verb_done(verb_line(toks)->0, toks, env, ts, ts2, fbs, evs)
    }
    &&& verb_line(toks) is Some && verb_line(toks)->0 != Verb::Play && names_plain(toks) && getal_checkable(toks, env) ==> verb_succeeds(
        verb_line(toks)->0,
        toks,
        env,
        ts,
        fail is None,
    )
    &&& fail is None && verb_line(toks) is Some && verb_line(toks)->0 != Verb::Play && names_buildable(toks, env) ==> {
        &&& env2 == env
        &&& fbs2 == fbs
        &&& verb_done_built(verb_line(toks)->0, toks, env, ts, ts2, fbs, evs)
    }
    &&& verb_line(toks) is Some && verb_line(toks)->0 != Verb::Play && verb_line_owed(verb_line(toks)->0, toks, env, ts) ==> fail is None
}

/// A name built at run time from its parts (`a-'i`).
pub open spec fn is_built(t: Token) -> bool {
    t.kind is Name && t.kind->Name_0@.contains('\'')
}

/// `r` is what token `t` stands for once its name is built: a built name becomes a name token
/// of the name it builds; every other token stays itself.
pub open spec fn resolves_to(t: Token, env: Map<Seq<char>, Binding>, r: Token) -> bool {
    if is_built(t) {
        r.kind is Name && built_name(t.kind->Name_0@, env, r.kind->Name_0@)
    } else {
        r == t
    }
}

/// `rs` is the line `ts` with each built name replaced by the name it builds.
#[verifier::opaque]
pub open spec fn resolved_line(ts: Seq<Token>, env: Map<Seq<char>, Binding>, rs: Seq<Token>) -> bool {
    &&& rs.len() == ts.len()
    &&& forall|i: int| 0 <= i < ts.len() ==> #[trigger] resolves_to(ts[i], env, rs[i])
}

/// The line's built names can be built, however built they give plain names (no `'`), and
/// none stands for a number (so the distance is read from the line's own tokens).
#[verifier::opaque]
pub open spec fn names_buildable(ts: Seq<Token>, env: Map<Seq<char>, Binding>) -> bool {
    &&& forall|i: int| 0 <= i < ts.len() && #[trigger] is_built(ts[i]) ==> segments_evaluable(ts[i].kind->Name_0@, env)
    &&& exists|rs: Seq<Token>| #[trigger] resolved_line(ts, env, rs)
    &&& forall|rs: Seq<Token>| #[trigger] resolved_line(ts, env, rs) ==> names_plain(rs) && forall|i: int|
        0 <= i < ts.len() && #[trigger] is_built(ts[i]) ==> !(bound(env, rs[i].kind) is Some && bound(env, rs[i].kind)->0.ty == Type::Getal)
}

/// A turtle-verb line, its built names built, did what the verb says.
#[verifier::opaque]
pub open spec fn verb_done_built(v: Verb, toks: Seq<Token>, env: Map<Seq<char>, Binding>, ts: Seq<Turtle>, ts2: Seq<Turtle>, fbs: Seq<Framebuffer>, out: Seq<Event>) -> bool {
    exists|rs: Seq<Token>|
        #[trigger] resolved_line(toks, env, rs) && names_plain(rs) && (getal_checkable(rs, env) ==> verb_resolves(
            v,
            SlotValues::empty_spec(),
            rs,
            env,
            false,
        )) && verb_done(v, rs, env, ts, ts2, fbs, out)
}

/// A turtle-verb line is owed success: its built names can be built and, however built, its
/// slots resolve with plain arithmetic for the distance, and the move stays within range.
#[verifier::opaque]
pub open spec fn verb_line_owed(v: Verb, toks: Seq<Token>, env: Map<Seq<char>, Binding>, ts: Seq<Turtle>) -> bool {
    &&& names_buildable(toks, env)
    &&& forall|rs: Seq<Token>| #[trigger] resolved_line(toks, env, rs) ==> getal_checkable(rs, env) && verb_resolves(
        v,
        SlotValues::empty_spec(),
        rs,
        env,
        false,
    ) && move_in_range(v, rs, env, ts)
}

/// Does `s` hold a `'`?
fn has_quote(s: &str) -> (r: bool)
    ensures
        r == s@.contains('\''),
{
    let cs = str_chars(s);
    let mut i: usize = 0;
    while i < cs.len()
        invariant
            i <= cs@.len(),
            cs@ == s@,
            forall|k: int| 0 <= k < i ==> cs@[k] != '\'',
        decreases cs@.len() - i,
    {
        if cs[i] == '\'' {
            return true;
        }
        i += 1;
    }
    false
}

/// The error for a name that names nothing, as the line's own words built it: when the first
/// `name` on the built line `rs` stands for a built name of `toks`, the error says how it was
/// built.
fn dynamic_not_found(toks: &[Token], rs: &[Token], name: &str, env: &Env, line: u32) -> (r: Option<SchildpadError>)
    ensures
        r matches Some(e) ==> e.line == line && e.kind is DynamicNameNotFound,
{
    let mut j: usize = 0;
    while j < toks.len() && j < rs.len()
        invariant
            j <= toks@.len(),
        decreases toks@.len() - j,
    {
        if let Tok::Name(n) = &rs[j].kind {
            let cs = str_chars(n.as_str());
            if chars_eq_str(cs.as_slice(), name) {
                if let Tok::Name(raw) = &toks[j].kind {
                    if has_quote(raw.as_str()) {
                        return match resolve_name(raw.as_str(), env, line) {
                            Ok(res) => Some(err(line, ErrorKind::DynamicNameNotFound { full: res.name, prefix: res.prefix, var: res.var })),
                            Err(_) => None,
                        };
                    }
                }
                return None;
            }
        }
        j += 1;
    }
    None
}

/// The line with each built name replaced by the name it builds, when every name can be built,
/// none builds a name holding a `'` and none stands for a number; otherwise `None`.
fn build_line(toks: &[Token], env: &Env, line: u32) -> (r: Option<Vec<Token>>)
    ensures
        r is Some ==> resolved_line(toks@, env@, r->0@) && names_plain(r->0@),
        names_buildable(toks@, env@) ==> r is Some,
        names_plain(toks@) ==> (r is Some && r->0@ == toks@),
{
    proof {
        reveal(resolved_line);
        reveal(names_buildable);
    }
    let mut out: Vec<Token> = Vec::new();
    let mut i: usize = 0;
    while i < toks.len()
        invariant
            i <= toks@.len(),
            out@.len() == i,
            forall|k: int| 0 <= k < i ==> #[trigger] resolves_to(toks@[k], env@, out@[k]),
            names_plain(out@),
            names_plain(toks@) ==> out@ == toks@.subrange(0, i as int),
        decreases toks@.len() - i,
    {
        let t = &toks[i];
        let ghost before = out@;
        let mut built = false;
        if let Tok::Name(raw) = &t.kind {
            built = has_quote(raw.as_str());
        }
        if built {
            let raw = match &t.kind {
                Tok::Name(s) => s,
                _ => { return None; },
            };
            proof {
                reveal(names_buildable);
                assert(is_built(toks@[i as int]));
                assert(raw@ == toks@[i as int].kind->Name_0@);
                if names_buildable(toks@, env@) {
                    assert(segments_evaluable(raw@, env@));
                }
            }
            let res = match resolve_name(raw.as_str(), env, line) {
                Ok(x) => x,
                Err(_) => { return None; },
            };
            let r = Token { kind: Tok::Name(res.name.clone()), col: t.col, len: t.len, ok: t.ok };
            proof {
                assert(resolves_to(toks@[i as int], env@, r));
            }
            let q = has_quote(res.name.as_str());
            let mut refused = q;
            if let Some(b) = env.get(res.name.as_str()) {
                if let Type::Getal = b.ty {
                    refused = true;
                }
            }
            if refused {
                proof {
                    reveal(names_buildable);
                    reveal(resolved_line);
                    if names_buildable(toks@, env@) {
                        let rs0 = choose|rs: Seq<Token>| #[trigger] resolved_line(toks@, env@, rs);
                        let h = rs0.update(i as int, r);
                        assert forall|k: int| 0 <= k < toks@.len() implies #[trigger] resolves_to(toks@[k], env@, h[k]) by {
                            if k != i {
                                assert(resolves_to(toks@[k], env@, rs0[k]));
                            }
                        }
                        assert(resolved_line(toks@, env@, h));
                        assert(h[i as int] == r);
                        assert(is_built(toks@[i as int]));
                    }
                }
                return None;
            }
            out.push(r);
        } else {
            proof {
                assert(!is_built(toks@[i as int]));
            }
            out.push(clone_token(t));
        }
        proof {
            assert forall|k: int| 0 <= k < out@.len() && (#[trigger] out@[k].kind) is Name implies !out@[k].kind->Name_0@.contains('\'') by {
                if k < i {
                    assert(out@[k] == before[k]);
                }
            }
            assert forall|k: int| 0 <= k < i + 1 implies #[trigger] resolves_to(toks@[k], env@, out@[k]) by {
                if k < i {
                    assert(out@[k] == before[k]);
                }
            }
            if names_plain(toks@) {
                assert(out@ =~= toks@.subrange(0, i + 1));
            }
        }
        i += 1;
    }
    proof {
        assert(toks@.subrange(0, toks@.len() as int) =~= toks@);
    }
    Some(out)
}

/// The number expression of a line is empty or arithmetic (so whether it has a value is known).
pub open spec fn getal_checkable(toks: Seq<Token>, env: Map<Seq<char>, Binding>) -> bool {
    getal_part(toks, env).len() == 0 || arith_only(getal_part(toks, env), env)
}

/// A move by the line's distance stays within range (vacuous for verbs that do not move).
pub open spec fn move_in_range(v: Verb, toks: Seq<Token>, env: Map<Seq<char>, Binding>, ts: Seq<Turtle>) -> bool {
    (v == Verb::Vooruit || v == Verb::Achteruit) ==> {
        let id = last_turtle(toks, env)->0 as int;
        let g = arith_value(getal_part(toks, env), env)->0;
        let q8 = crate::number::round_half_away(g.0 * 256, g.1);
        &&& !has_random(toks)
        &&& advance_spec(ts[id].pos, ts[id].heading as int, if v == Verb::Vooruit { q8 } else { -q8 }) is Some
    }
}

/// When a turtle-verb line succeeds (`ok`): only when its slots resolve, and always when they
/// do and the move it makes stays within range.
pub open spec fn verb_succeeds(v: Verb, toks: Seq<Token>, env: Map<Seq<char>, Binding>, ts: Seq<Turtle>, ok: bool) -> bool {
    &&& ok ==> verb_resolves(v, SlotValues::empty_spec(), toks, env, false)
    &&& verb_resolves(v, SlotValues::empty_spec(), toks, env, false) && move_in_range(v, toks, env, ts) ==> ok
}

/// What a line that invokes a named action did (see `simple_done`).
pub open spec fn action_line_done(
    toks: Seq<Token>,
    env: Map<Seq<char>, Binding>,
    env2: Map<Seq<char>, Binding>,
    ts: Seq<Turtle>,
    ts2: Seq<Turtle>,
    fbs: Seq<Framebuffer>,
    fbs2: Seq<Framebuffer>,
    evs: Seq<Event>,
    fail: Option<SchildpadError>,
) -> bool {
    action_line(toks) && names_plain(toks) ==> match first_action(toks, env, 0) {
        None => fail is Some && fail->0.kind is NotAStatement,
        Some((k, f)) => (f.verb == Verb::Play ==> fail is Some && fail->0.kind is CurryPlay) && (fail is None ==> env2 == env && fbs2
            == fbs && action_done(f, k, toks, env, ts, ts2, fbs, evs)) && (f.verb != Verb::Play && getal_checkable(
            without_at(toks, k),
            env,
        ) ==> curry_succeeds(f, without_at(toks, k), env, ts, fail is None)),
    }
}

#[verifier::opaque]
pub open spec fn simple_done(
    toks: Seq<Token>,
    env: Map<Seq<char>, Binding>,
    env2: Map<Seq<char>, Binding>,
    ts: Seq<Turtle>,
    ts2: Seq<Turtle>,
    fbs: Seq<Framebuffer>,
    fbs2: Seq<Framebuffer>,
    active: nat,
    st: u64,
    st2: u64,
    evs: Seq<Event>,
    fail: Option<SchildpadError>,
) -> bool {
    let ok = fail is None;
    &&& play_done(toks, env, env2, ts, ts2, fbs, fbs2, st, st2, evs, fail)
    &&& turtle_line_done(toks, env, env2, ts, ts2, fbs, fbs2, evs, fail)
    &&& ok && toks.len() > 0 && toks[0].kind == Tok::Maak ==> {
        &&& maak_effect(toks, env, env2, ts, ts2, active)
        &&& fbs2 == fbs
        &&& evs.len() == 0
    }
    &&& toks.len() > 0 && toks[0].kind == Tok::Print ==> {
        let vals = toks.subrange(1, toks.len() as int);
        &&& arith_only(vals, env) ==> (ok <==> arith_value(vals, env) is Some)
        &&& plain_only(vals, env) ==> (ok <==> plain_value(vals, env) is Some)
        &&& ok ==> env2 == env && ts2 == ts && print_done(toks, env, fbs, fbs2, active as int, evs)
    }
    &&& toks.len() > 0 && toks[0].kind == Tok::WrapMode ==> (ok <==> wrap_word(toks) is Some) && (ok ==> env2 == env && ts2 == ts
        && wrap_done(wrap_word(toks)->0, fbs, fbs2, active as int, evs))
    &&& action_line_done(toks, env, env2, ts, ts2, fbs, fbs2, evs, fail)
    &&& toks.len() > 1 && toks[0].kind is Name && toks[1].kind == Tok::Op(61) ==> {
        &&& !toks[0].kind->Name_0@.contains('\'') && !env.contains_key(key_of(toks[0].kind->Name_0@)) ==> fail is Some
            && fail->0.kind is AssignToUndeclared && fail->0.kind->AssignToUndeclared_name@ == toks[0].kind->Name_0@
        &&& ok ==> reassign_effect(toks, env, env2) && ts2 == ts && fbs2 == fbs && evs.len() == 0
    }
    &&& toks.len() > 0 && toks[0].kind == Tok::Maak ==> maak_outcome(toks, env, fail)
    &&& toks.len() > 0 && toks[0].kind == Tok::Random ==> fail is Some && fail->0.kind == ErrorKind::BareRandom
    &&& print_of_nil(toks, env) ==> fail is Some && fail->0.kind is PrintNil && fail->0.kind->PrintNil_name@ == toks[1].kind->Name_0@
}

/// A `print` of a lone plain name bound to nil.
pub open spec fn print_of_nil(toks: Seq<Token>, env: Map<Seq<char>, Binding>) -> bool {
    &&& toks.len() == 2
    &&& toks[0].kind == Tok::Print
    &&& toks[1].kind is Name
    &&& !toks[1].kind->Name_0@.contains('\'')
    &&& env.contains_key(key_of(toks[1].kind->Name_0@))
    &&& env[key_of(toks[1].kind->Name_0@)].value is Nil
}

/// The events a step's statement emitted: those between its `Line` event and, when it
/// halted, its `Error` event.
pub open spec fn line_events(r: Seq<Event>, halted: bool) -> Seq<Event> {
    if halted { r.subrange(1, r.len() - 1) } else { r.subrange(1, r.len() as int) }
}

/// How a step's statement failed: with the error its last event carries when it halted.
pub open spec fn line_result(r: Seq<Event>, halted: bool) -> Option<SchildpadError> {
    if halted { Some(r.last()->Error_0) } else { None }
}

/// The error a statement failed with, if it failed.
pub open spec fn failure(r: Result<(), SchildpadError>) -> Option<SchildpadError> {
    match r {
        Ok(_) => None,
        Err(e) => Some(e),
    }
}

/// What a successful `print` line did: one white text at the glyph cursor of the active
/// buffer `a`, whose cursor moves on past it; an expression over numbers and texts prints its
/// exact value.
pub open spec fn print_done(toks: Seq<Token>, env: Map<Seq<char>, Binding>, fbs: Seq<Framebuffer>, fbs2: Seq<Framebuffer>, a: int, evs: Seq<Event>) -> bool {
    let fb = fbs[a];
    let vals = toks.subrange(1, toks.len() as int);
    &&& evs.len() == 1
    &&& match evs[0] {
        Event::Draw(DrawOp::Text { fb: b, col, row, text, colour }) => {
            let c = cursor_after(col as int, row as int, text@.len() as int, fb.cols as int, fb.rows as int);
            &&& b == a as u8
            &&& col == fb.cur_col
            &&& row == fb.cur_row
            &&& colour == "wit"
            &&& fbs2 == fbs.update(a, Framebuffer { cur_col: c.0 as u16, cur_row: c.1 as u16, ..fb })
            &&& arith_only(vals, env) ==> text@ == crate::value::num_text(arith_value(vals, env)->0)
            &&& plain_only(vals, env) ==> text@ == crate::expr::plain_text(plain_value(vals, env)->0)
        },
        _ => false,
    }
}

/// The edge policy a `wrapmode` line names: `wrap` or `klem`, in any case.
pub open spec fn wrap_word(toks: Seq<Token>) -> Option<WrapMode> {
    if toks.len() > 1 && toks[1].kind is Name {
        let w = crate::text::ascii_lower(toks[1].kind->Name_0@);
        if w == "wrap"@ {
            Some(WrapMode::Wrap)
        } else if w == "klem"@ {
            Some(WrapMode::Clamp)
        } else {
            None
        }
    } else {
        None
    }
}

/// What a successful `wrapmode` line did: the active buffer `a` took the edge policy `mode`,
/// and said so.
pub open spec fn wrap_done(mode: WrapMode, fbs: Seq<Framebuffer>, fbs2: Seq<Framebuffer>, a: int, evs: Seq<Event>) -> bool {
    &&& evs == seq![Event::Draw(DrawOp::SetWrap { fb: a as u8, mode })]
    &&& fbs2 == fbs.update(a, Framebuffer { wrap: mode, ..fbs[a] })
}

/// The value part of a rebinding line `naam = <expr> [type]`: what follows the `=`, less a
/// trailing type word (which casts).
pub open spec fn reassign_value(toks: Seq<Token>) -> Seq<Token> {
    let n = toks.len() as int;
    if n > 2 && toks[n - 1].kind is Type {
        toks.subrange(2, n - 1)
    } else {
        toks.subrange(2, n)
    }
}

/// What a successful rebinding `naam = <expr> [type]` with a plain name did: the name was bound
/// already, it alone is rebound, to the exact number or text of a value over numbers and texts,
/// cast to the trailing type word when there is one.
pub open spec fn reassign_effect(toks: Seq<Token>, env: Map<Seq<char>, Binding>, env2: Map<Seq<char>, Binding>) -> bool {
    let raw = toks[0].kind->Name_0@;
    let k = key_of(raw);
    let n = toks.len() as int;
    let vals = reassign_value(toks);
    !raw.contains('\'') ==> {
        &&& env.contains_key(k)
        &&& env2.contains_key(k)
        &&& env2.remove(k) == env.remove(k)
        &&& env2[k].name@ == raw
        &&& !(toks[n - 1].kind is Type) && arith_only(vals, env) ==> env2[k].ty == Type::Getal && env2[k].value is Getal
            && Some(env2[k].value->Getal_0@) == arith_value(vals, env)
        &&& env2[k].ty == crate::value::value_type(env2[k].value)
        &&& !(n > 2 && toks[n - 1].kind is Type) && plain_only(vals, env) ==> plain_of(env2[k].value) == plain_value(vals, env)
        &&& n > 2 && toks[n - 1].kind is Type && plain_only(vals, env) ==> env2[k].ty == toks[n - 1].kind->Type_0 && cast_of(
            toks[n - 1].kind->Type_0,
            plain_value(vals, env),
            env2[k].value,
        )
    }
}

/// A named action is a snapshot: rebinding another name (even one the action was made from)
/// leaves the action exactly as it was made.
pub proof fn law_action_is_a_snapshot(toks: Seq<Token>, env: Map<Seq<char>, Binding>, env2: Map<Seq<char>, Binding>, action: Seq<char>)
    requires
        toks.len() >= 2,
        toks[0].kind is Name,
        !toks[0].kind->Name_0@.contains('\''),
        reassign_effect(toks, env, env2),
        env.contains_key(action),
        env[action].value is Frame,
        action != key_of(toks[0].kind->Name_0@),
    ensures
        env2.contains_key(action),
        env2[action] == env[action],
{
    let k = key_of(toks[0].kind->Name_0@);
    assert(env.remove(k).contains_key(action));
    assert(env2.remove(k)[action] == env.remove(k)[action]);
}

/// Does `l <relation> r` hold on two exact numbers?
pub open spec fn relation_holds(relation: Cmp, l: (int, int), r: (int, int)) -> bool {
    match relation {
        Cmp::Groter => r.0 * l.1 < l.0 * r.1,
        Cmp::Kleiner => l.0 * r.1 < r.0 * l.1,
        Cmp::Gelijk => crate::number::same_value(l, r),
    }
}

/// How many passes a counted loop makes for a count `g`: the count truncated toward zero, none
/// when it is not positive.
pub open spec fn pass_count(g: (int, int)) -> int {
    if g.0 <= 0 { 0 } else { trunc_div(g.0, g.1) }
}

/// The frames after a loop header with `passes` passes over block `body`.
pub open spec fn after_loop_header(st: Seq<ExecFrame>, body: usize, passes: int) -> Seq<ExecFrame> {
    if passes > 0 { st.push(ExecFrame { block: body, idx: 0, kind: FrameKind::Count { reps: (passes - 1) as u64 } }) } else { st }
}

/// The frames after an `als` header whose test came out `truth`.
pub open spec fn after_if_header(st: Seq<ExecFrame>, then_b: usize, else_b: Option<usize>, truth: bool) -> Seq<ExecFrame> {
    if truth {
        st.push(ExecFrame { block: then_b, idx: 0, kind: FrameKind::Once })
    } else {
        match else_b {
            Some(e) => st.push(ExecFrame { block: e, idx: 0, kind: FrameKind::Once }),
            None => st,
        }
    }
}

/// What moving turtle `id` by `q8` (Q8 pixels) does: it fails, changing nothing, when the
/// destination is out of range; otherwise the turtle stands at the destination and, with its
/// pen down, the line it walked is plotted into its buffer.
spec fn moved(old_m: Machine, new_m: Machine, id: int, q8: int, before: Seq<Event>, after: Seq<Event>, r: Result<(), SchildpadError>) -> bool {
    let t = old_m.turtles@[id];
    let fb = old_m.fbs@[t.buffer as int];
    match advance_spec(t.pos, t.heading as int, q8) {
        None => r is Err && r->Err_0.kind == ErrorKind::NumberOutOfRange && new_m.turtles@ == old_m.turtles@ && after == before,
        Some((nx, ny)) => r is Ok && new_m.turtles@ == old_m.turtles@.update(id, Turtle { pos: FixedPos { x: nx as i64, y: ny as i64 }, ..t })
            && after == before + if t.pen_down {
            trail(
                t.buffer,
                round_to_px_spec(t.pos.x as int),
                round_to_px_spec(t.pos.y as int),
                round_to_px_spec(nx),
                round_to_px_spec(ny),
                fb.cols * 8,
                fb.rows * 8,
                fb.wrap,
                t.pen,
            )
        } else {
            Seq::<Event>::empty()
        },
    }
}

/// What firing verb `v` with slots `sv` does to the machine and the output.
spec fn fired(v: Verb, sv: SlotValues, old_m: Machine, new_m: Machine, before: Seq<Event>, after: Seq<Event>, r: Result<(), SchildpadError>) -> bool {
    let id = sv.schildpad->0 as int;
    let t = old_m.turtles@[id];
    &&& v == Verb::Vooruit ==> moved(old_m, new_m, id, dist_q8_of(sv.getal->0), before, after, r)
    &&& v == Verb::Achteruit ==> moved(old_m, new_m, id, -dist_q8_of(sv.getal->0), before, after, r)
    &&& v == Verb::Draai ==> r is Ok && after == before && new_m.turtles@ == old_m.turtles@.update(
        id,
        Turtle { heading: ((t.heading + sv.draai->0) % 360) as i64, ..t },
    )
    &&& v == Verb::Pen ==> r is Ok && after == before && new_m.turtles@ == old_m.turtles@.update(
        id,
        Turtle { pen: sv.kleur->0, pen_down: true, ..t },
    )
    &&& v == Verb::Penomhoog ==> r is Ok && after == before && new_m.turtles@ == old_m.turtles@.update(id, Turtle { pen_down: false, ..t })
    &&& v == Verb::Penomlaag ==> r is Ok && after == before && new_m.turtles@ == old_m.turtles@.update(id, Turtle { pen_down: true, ..t })
}

proof fn lemma_verb_sig_resolves(sig: VerbSig, v: Verb, start: SlotValues, ts: Seq<Token>, env: Map<Seq<char>, Binding>, partial: bool)
    requires
        sig.slots@ == verb_slots(v),
        verb_sampler_matches(v, sig.sampler),
    ensures
        resolves(sig, start, ts, env, partial) == verb_resolves(v, start, ts, env, partial),
{
    if v == Verb::Draai {
        assert(sig.sampler->0->ChoiceDraai_0@.len() == 2);
    }
}

/// The move a verb with slots `sv` makes would leave the range.
pub open spec fn move_refused(v: Verb, sv: SlotValues, ts: Seq<Turtle>) -> bool {
    let t = ts[sv.schildpad->0 as int];
    ||| v == Verb::Vooruit && advance_spec(t.pos, t.heading as int, dist_q8_of(sv.getal->0)) is None
    ||| v == Verb::Achteruit && advance_spec(t.pos, t.heading as int, -dist_q8_of(sv.getal->0)) is None
}

/// A verb whose slots resolved fails only on a move out of range.
proof fn lemma_failed_move(v: Verb, sv: SlotValues, old_m: Machine, toks: Seq<Token>)
    requires
        move_refused(v, sv, old_m.turtles@),
        sv.schildpad is Some,
        v == Verb::Vooruit || v == Verb::Achteruit ==> sv.getal is Some,
        slots_from_tokens(SlotValues::empty_spec(), toks, old_m.env@, sv, has_random(toks)),
        getal_checkable(toks, old_m.env@),
        v == Verb::Vooruit || v == Verb::Achteruit ==> !has_random(toks) ==> getal_part(toks, old_m.env@).len() > 0,
    ensures
        !move_in_range(v, toks, old_m.env@, old_m.turtles@),
{
    if (v == Verb::Vooruit || v == Verb::Achteruit) && !has_random(toks) {
        let id = sv.schildpad->0 as int;
        assert(last_turtle(toks, old_m.env@) == sv.schildpad);
        assert(arith_only(getal_part(toks, old_m.env@), old_m.env@));
        assert(Some(sv.getal->0@) == arith_value(getal_part(toks, old_m.env@), old_m.env@));
        let g = arith_value(getal_part(toks, old_m.env@), old_m.env@)->0;
        assert(dist_q8_of(sv.getal->0) == crate::number::round_half_away(g.0 * 256, g.1));
    }
}

proof fn lemma_fired_effect(v: Verb, sv: SlotValues, old_m: Machine, new_m: Machine, before: Seq<Event>, after: Seq<Event>, r: Result<(), SchildpadError>)
    requires
        fired(v, sv, old_m, new_m, before, after, r),
        v != Verb::Play,
        sv.schildpad is Some,
        before.len() <= after.len(),
        r is Ok,
    ensures
        verb_effect(v, sv, old_m.turtles@, new_m.turtles@, old_m.fbs@, after.subrange(before.len() as int, after.len() as int)),
{
    let id = sv.schildpad->0 as int;
    let t = old_m.turtles@[id];
    if v == Verb::Vooruit || v == Verb::Achteruit {
        let q8 = if v == Verb::Vooruit { dist_q8_of(sv.getal->0) } else { -dist_q8_of(sv.getal->0) };
        if let Some((nx, ny)) = advance_spec(t.pos, t.heading as int, q8) {
            assert(after.subrange(before.len() as int, after.len() as int) =~= move_trail(t, old_m.fbs@[t.buffer as int], nx, ny));
        }
    } else {
        assert(after.subrange(before.len() as int, after.len() as int) =~= Seq::<Event>::empty());
    }
}

/// Nothing but the turtles (and the generator) changed.
spec fn only_turtles_changed(old_m: Machine, new_m: Machine) -> bool {
    &&& new_m.env@ == old_m.env@
    &&& new_m.fbs@ == old_m.fbs@
    &&& new_m.active_fb == old_m.active_fb
    &&& new_m.stack@ == old_m.stack@
    &&& new_m.done == old_m.done
    &&& new_m.seed == old_m.seed
    &&& new_m.turtles@.len() == old_m.turtles@.len()
}

proof fn lemma_round_neg(x: int, d: int)
    requires
        d > 0,
    ensures
        crate::number::round_half_away(-x, d) == -crate::number::round_half_away(x, d),
{
    if x == 0 {
        assert(d / (2 * d) == 0) by (nonlinear_arith)
            requires
                d > 0,
        ;
    }
}

impl Machine {
    fn move_turtle(&mut self, id: usize, dist: &Getal, line: u32, out: &mut Vec<Event>) -> (r: Result<(), SchildpadError>)
        requires
            old(self).state_ok(),
            id < old(self).turtles@.len(),
        ensures
            final(self).state_ok(),
            only_turtles_changed(*old(self), *final(self)),
            final(self).rng@ == old(self).rng@,
            error_line_is(r, line),
            appends_output(old(out)@, final(out)@),
            moved(*old(self), *final(self), id as int, dist_q8_of(*dist), old(out)@, final(out)@, r),
    {
        proof {
            assert(out@.subrange(0, out@.len() as int) =~= out@);
        }
        let ghost t0 = self.turtles@[id as int];
        assert(turtle_ok(t0, self.fbs@.len()));
        let t = &self.turtles[id];
        let start = t.pos;
        let end = match advance(start, t.heading, dist) {
            Some(p) => p,
            None => return Err(err(line, ErrorKind::NumberOutOfRange)),
        };
        let fb = self.fbs[t.buffer as usize];
        if t.pen_down {
            plot_line(t.buffer, start.px_x(), start.px_y(), end.px_x(), end.px_y(), fb.w(), fb.h(), fb.wrap, t.pen, out);
            proof {
                assert(out@.subrange(0, old(out)@.len() as int) =~= old(out)@);
            }
        } else {
            assert(out@ =~= old(out)@ + Seq::<Event>::empty());
        }
        let nt = Turtle {
            name: t.name.clone(),
            pos: end,
            heading: t.heading,
            pen: t.pen,
            pen_down: t.pen_down,
            tint: t.tint,
            buffer: t.buffer,
        };
        self.turtles.set(id, nt);
        proof {
            assert forall|i: int| 0 <= i < self.turtles@.len() implies turtle_ok(#[trigger] self.turtles@[i], self.fbs@.len()) by {
                if i != id {
                    assert(self.turtles@[i] == old(self).turtles@[i]);
                }
            }
        }
        Ok(())
    }

    /// Carry out a turtle verb whose slots are all filled.
    fn fire(&mut self, v: Verb, sv: SlotValues, line: u32, out: &mut Vec<Event>) -> (r: Result<(), SchildpadError>)
        requires
            old(self).state_ok(),
            v != Verb::Play,
            sv.schildpad matches Some(id) && id < old(self).turtles@.len(),
            v == Verb::Vooruit || v == Verb::Achteruit ==> sv.getal is Some,
            v == Verb::Draai ==> sv.draai is Some,
            v == Verb::Pen ==> sv.kleur is Some,
        ensures
            final(self).state_ok(),
            only_turtles_changed(*old(self), *final(self)),
            error_line_is(r, line),
            appends_output(old(out)@, final(out)@),
            fired(v, sv, *old(self), *final(self), old(out)@, final(out)@, r),
            r is Err ==> move_refused(v, sv, old(self).turtles@),
    {
        proof {
            assert(out@.subrange(0, out@.len() as int) =~= out@);
        }
        let id = match sv.schildpad {
            Some(i) => i,
            None => 0,
        };
        match v {
            Verb::Vooruit | Verb::Achteruit => {
                let d = match sv.getal {
                    Some(g) => g,
                    None => Getal::zero(),
                };
                if v == Verb::Achteruit {
                    let nd = d.neg();
                    let _den = d.denom();
                    let r = self.move_turtle(id, &nd, line, out);
                    proof {
                        assert(nd@ == (-d@.0, d@.1));
                        assert(-(d@.0 * 256) == (-d@.0) * 256);
                        lemma_round_neg(d@.0 * 256, d@.1);
                    }
                    r
                } else {
                    self.move_turtle(id, &d, line, out)
                }
            },
            _ => {
                let t = &self.turtles[id];
                let mut nt = Turtle {
                    name: t.name.clone(),
                    pos: t.pos,
                    heading: t.heading,
                    pen: t.pen,
                    pen_down: t.pen_down,
                    tint: t.tint,
                    buffer: t.buffer,
                };
                match v {
                    Verb::Draai => {
                        let d = match sv.draai {
                            Some(d) => d,
                            None => 0,
                        };
                        let h = norm_deg(t.heading + norm_deg(d));
                        proof {
                            vstd::arithmetic::div_mod::lemma_add_mod_noop(t.heading as int, d as int, 360);
                            vstd::arithmetic::div_mod::lemma_small_mod(t.heading as nat, 360);
                            vstd::arithmetic::div_mod::lemma_add_mod_noop(t.heading as int, (d % 360) as int, 360);
                            vstd::arithmetic::div_mod::lemma_mod_twice(d as int, 360);
                        }
                        nt.heading = h;
                    },
                    Verb::Pen => {
                        nt.pen = match sv.kleur {
                            Some(c) => c,
                            None => t.pen,
                        };
                        nt.pen_down = true;
                    },
                    Verb::Penomhoog => nt.pen_down = false,
                    _ => nt.pen_down = true,
                }
                self.turtles.set(id, nt);
                proof {
                    assert forall|i: int| 0 <= i < self.turtles@.len() implies turtle_ok(#[trigger] self.turtles@[i], self.fbs@.len()) by {
                        if i != id {
                            assert(self.turtles@[i] == old(self).turtles@[i]);
                        }
                    }
                }
                Ok(())
            },
        }
    }
}

/// Only the bindings (and the generator) changed.
spec fn only_env_changed(old_m: Machine, new_m: Machine) -> bool {
    &&& new_m.turtles@ == old_m.turtles@
    &&& new_m.fbs@ == old_m.fbs@
    &&& new_m.active_fb == old_m.active_fb
    &&& new_m.stack@ == old_m.stack@
    &&& new_m.done == old_m.done
    &&& new_m.seed == old_m.seed
}

/// The stack, the end flag and the seed are untouched, and turtles are only ever added.
spec fn keeps_course(old_m: Machine, new_m: Machine) -> bool {
    &&& new_m.stack@ == old_m.stack@
    &&& new_m.done == old_m.done
    &&& new_m.seed == old_m.seed
    &&& new_m.fbs@.len() == old_m.fbs@.len()
    &&& new_m.turtles@.len() >= old_m.turtles@.len()
}

impl Machine {
    /// Bring a new turtle into existence (at the origin, heading 0, its pen down) and return
    /// its id.
    fn summon(&mut self, name: String) -> (id: usize)
        requires
            old(self).state_ok(),
        ensures
            final(self).state_ok(),
            id == old(self).turtles@.len(),
            final(self).turtles@ == old(self).turtles@.push(
                Turtle {
                    name,
                    pos: FixedPos { x: 0, y: 0 },
                    heading: 0,
                    pen: default_pen_spec(id as int),
                    pen_down: true,
                    tint: (id % 256) as u8,
                    buffer: old(self).active_fb as u8,
                },
            ),
            final(self).env@ == old(self).env@,
            final(self).fbs@ == old(self).fbs@,
            final(self).active_fb == old(self).active_fb,
            final(self).stack@ == old(self).stack@,
            final(self).done == old(self).done,
            final(self).seed == old(self).seed,
            final(self).rng@ == old(self).rng@,
    {
        let idx = self.turtles.len();
        let t = Turtle {
            name,
            pos: FixedPos::from_px(0, 0),
            heading: 0,
            pen: default_pen(idx),
            pen_down: true,
            tint: (idx % 256) as u8,
            buffer: self.active_fb as u8,
        };
        self.turtles.push(t);
        proof {
            lemma_env_refs_grow(self.env@, idx as nat, (idx + 1) as nat);
            assert forall|i: int| 0 <= i < self.turtles@.len() implies turtle_ok(#[trigger] self.turtles@[i], self.fbs@.len()) by {
                if i < idx {
                    assert(self.turtles@[i] == old(self).turtles@[i]);
                }
            }
        }
        idx
    }

    /// Bind (or rebind) under the binding's own name.
    fn bind(&mut self, b: Binding)
        requires
            old(self).state_ok(),
            value_refs_below(b.value, old(self).turtles@.len()),
        ensures
            final(self).state_ok(),
            final(self).env@ == old(self).env@.insert(key_of(b.name@), b),
            only_env_changed(*old(self), *final(self)),
            final(self).rng@ == old(self).rng@,
    {
        proof {
            lemma_env_refs_insert(self.env@, key_of(b.name@), b, self.turtles@.len());
        }
        self.env.set(b);
    }

    /// The first name token bound to a named action, with its position.
    fn find_action(&self, toks: &[Token], line: u32) -> (r: Option<(usize, PartialFrame)>)
        requires
            self.state_ok(),
        ensures
            r matches Some((k, f)) ==> k < toks@.len() && match f.filled.schildpad {
                Some(id) => id < self.turtles@.len(),
                None => true,
            },
            names_plain(toks@) ==> match first_action(toks@, self.env@, 0) {
                Some((k, f)) => 0 <= k < toks@.len() && r == Some((k as usize, f)),
                None => r is None,
            },
    {
        let mut k: usize = 0;
        while k < toks.len()
            invariant
                k <= toks@.len(),
                self.state_ok(),
                names_plain(toks@) ==> first_action(toks@, self.env@, 0) == first_action(toks@, self.env@, k as int),
            decreases toks@.len() - k,
        {
            if let Tok::Name(raw) = &toks[k].kind {
                if let Ok(res) = resolve_name(raw.as_str(), &self.env, line) {
                    if let Some(b) = self.env.get(res.name.as_str()) {
                        if let Value::Frame(f) = &b.value {
                            proof {
                                assert(self.env@.contains_key(key_of(res.name@)));
                                assert(value_refs_below(self.env@[key_of(res.name@)].value, self.turtles@.len()));
                            }
                            return Some((k, *f));
                        }
                    }
                }
            }
            k += 1;
        }
        None
    }

    /// A turtle verb statement, its slots filled from the line in any order.
    #[verifier::rlimit(60)]
    fn do_verb(&mut self, v: Verb, toks: &[Token], line: u32, out: &mut Vec<Event>) -> (r: Result<(), SchildpadError>)
        requires
            old(self).state_ok(),
            v != Verb::Play,
        ensures
            final(self).state_ok(),
            only_turtles_changed(*old(self), *final(self)),
            error_line_is(r, line),
            appends_output(old(out)@, final(out)@),
            r is Ok && names_plain(toks@) ==> verb_done(v, toks@, old(self).env@, old(self).turtles@, final(self).turtles@, old(self).fbs@,
                final(out)@.subrange(old(out)@.len() as int, final(out)@.len() as int)),
            names_plain(toks@) && getal_checkable(toks@, old(self).env@) ==> verb_succeeds(v, toks@, old(self).env@, old(self).turtles@, r is Ok),
            r is Ok && names_buildable(toks@, old(self).env@) ==> verb_done_built(v, toks@, old(self).env@, old(self).turtles@,
                final(self).turtles@, old(self).fbs@, final(out)@.subrange(old(out)@.len() as int, final(out)@.len() as int)),
            verb_line_owed(v, toks@, old(self).env@, old(self).turtles@) ==> r is Ok,
    {
        proof {
            reveal(resolved_line);
            reveal(names_buildable);
            reveal(verb_done_built);
            reveal(verb_line_owed);
        }
        let built = build_line(toks, &self.env, line);
        let ghost env0 = self.env@;
        let ghost ts0 = self.turtles@;
        match built {
            Some(rs) => {
                let r0 = self.run_verb(v, rs.as_slice(), line, out);
                let r = match r0 {
                    Ok(()) => Ok(()),
                    Err(e) => match e.kind {
                        ErrorKind::UnknownNameTurtleHint { name } => match dynamic_not_found(toks, rs.as_slice(), name.as_str(), &self.env, line) {
                            Some(e2) => Err(e2),
                            None => Err(err(line, ErrorKind::UnknownNameTurtleHint { name })),
                        },
                        other => Err(err(line, other)),
                    },
                };
                proof {
                    if names_plain(toks@) {
                        assert(rs@ == toks@);
                    }
                    if names_buildable(toks@, env0) {
                        assert(resolved_line(toks@, env0, rs@));
                    }
                }
                r
            },
            None => self.run_verb(v, toks, line, out),
        }
    }

    /// A turtle-verb line, read as it stands: its slots filled from its tokens, then the verb.
    #[verifier::spinoff_prover]
    #[verifier::rlimit(60)]
    fn run_verb(&mut self, v: Verb, toks: &[Token], line: u32, out: &mut Vec<Event>) -> (r: Result<(), SchildpadError>)
        requires
            old(self).state_ok(),
            v != Verb::Play,
        ensures
            final(self).state_ok(),
            only_turtles_changed(*old(self), *final(self)),
            error_line_is(r, line),
            appends_output(old(out)@, final(out)@),
            r is Ok && names_plain(toks@) ==> verb_done(v, toks@, old(self).env@, old(self).turtles@, final(self).turtles@, old(self).fbs@,
                final(out)@.subrange(old(out)@.len() as int, final(out)@.len() as int)),
            names_plain(toks@) && getal_checkable(toks@, old(self).env@) ==> verb_succeeds(v, toks@, old(self).env@, old(self).turtles@, r is Ok),
    {
        proof {
            assert(out@.subrange(0, out@.len() as int) =~= out@);
        }
        let sig = verb_sig(v);
        proof {
            lemma_verb_sig_resolves(sig, v, SlotValues::empty_spec(), toks@, self.env@, false);
        }
        let resolved = resolve_turtle_verb(&sig, toks, &self.env, &mut self.rng, line);
        let sv = match resolved {
            Ok(sv) => sv,
            Err(e) => {
                return Err(e);
            },
        };
        proof {
            assert(slot_filled(sv, sig.slots@[0]));
            assert(slot_filled(sv, sig.slots@[sig.slots@.len() - 1]));
            assert(env_refs_below(self.env@, self.turtles@.len()));
            if has_random(toks@) && v == Verb::Draai {
                let opts = sig.sampler->0->ChoiceDraai_0;
                let k = choose|k: int| 0 <= k < opts@.len() && #[trigger] opts@[k] as i64 == sv.draai->0;
                assert(opts@[k] == -90i32 || opts@[k] == 90i32);
            }
        }
        let ghost m0 = *self;
        let ghost before = out@;
        let r = self.fire(v, sv, line, out);
        proof {
            if r is Ok {
                lemma_fired_effect(v, sv, m0, *self, before, out@, r);
            } else if names_plain(toks@) && getal_checkable(toks@, m0.env@) {
                if (v == Verb::Vooruit || v == Verb::Achteruit) && !has_random(toks@) {
                    assert(sig.slots@[0] == Type::Getal);
                    assert(crate::frame::filled_after(sig, SlotValues::empty_spec(), toks@, m0.env@, sig.slots@[0]));
                }
                lemma_failed_move(v, sv, m0, toks@);
            }
        }
        r
    }

    /// Invoke a named action: its verb with the slots it was made with, the rest filled from
    /// the line (the action's own name at `skip` left out).
    #[verifier::spinoff_prover]
    #[verifier::rlimit(40)]
    fn invoke(&mut self, f: PartialFrame, skip: usize, toks: &[Token], line: u32, out: &mut Vec<Event>) -> (r: Result<(), SchildpadError>)
        requires
            old(self).state_ok(),
            skip < toks@.len(),
            match f.filled.schildpad {
                Some(id) => id < old(self).turtles@.len(),
                None => true,
            },
        ensures
            final(self).state_ok(),
            only_turtles_changed(*old(self), *final(self)),
            error_line_is(r, line),
            appends_output(old(out)@, final(out)@),
            f.verb == Verb::Play ==> r is Err && r->Err_0.kind is CurryPlay,
            r is Ok && names_plain(toks@) ==> action_done(f, skip as int, toks@, old(self).env@, old(self).turtles@, final(self).turtles@,
                old(self).fbs@, final(out)@.subrange(old(out)@.len() as int, final(out)@.len() as int)),
            names_plain(toks@) && f.verb != Verb::Play && getal_checkable(without_at(toks@, skip as int), old(self).env@)
                ==> curry_succeeds(f, without_at(toks@, skip as int), old(self).env@, old(self).turtles@, r is Ok),
    {
        proof {
            assert(out@.subrange(0, out@.len() as int) =~= out@);
        }
        if f.verb == Verb::Play {
            return Err(err(line, ErrorKind::CurryPlay));
        }
        let sig = verb_sig(f.verb);
        let rest = drop_at(toks, skip);
        proof {
            if names_plain(toks@) {
                lemma_plain_without(toks@, skip as int);
            }
            assert(without_at(rest@, -1) == rest@);
            lemma_verb_sig_resolves(sig, f.verb, f.filled, rest@, self.env@, false);
        }
        let sv = resolve_slots(&sig, rest.as_slice(), &self.env, &mut self.rng, line, f.filled, None, false)?;
        proof {
            assert(slot_filled(sv, sig.slots@[0]));
            assert(slot_filled(sv, sig.slots@[sig.slots@.len() - 1]));
            assert(env_refs_below(self.env@, self.turtles@.len()));
        }
        let ghost m0 = *self;
        let ghost before = out@;
        let r = self.fire(f.verb, sv, line, out);
        proof {
            if r is Ok {
                lemma_fired_effect(f.verb, sv, m0, *self, before, out@, r);
                if names_plain(toks@) {
                    assert(slots_from_tokens(f.filled, without_at(toks@, skip as int), m0.env@, sv, has_random(rest@)));
                }
            } else if names_plain(toks@) {
                assert(slots_from_tokens(f.filled, rest@, m0.env@, sv, has_random(rest@)));
            }
        }
        r
    }
}

/// The tokens with the one at `k` left out.
fn drop_at(toks: &[Token], k: usize) -> (r: Vec<Token>)
    requires
        k < toks@.len(),
    ensures
        r@ == without_at(toks@, k as int),
{
    let mut out: Vec<Token> = Vec::new();
    let mut i: usize = 0;
    while i < toks.len()
        invariant
            k < toks@.len(),
            i <= toks@.len(),
            out@ == without_at(toks@.subrange(0, i as int), if k < i { k as int } else { -1 }),
        decreases toks@.len() - i,
    {
        proof {
            let a = toks@.subrange(0, i + 1);
            let b = toks@.subrange(0, i as int);
            if k < i {
                assert(a.remove(k as int) =~= b.remove(k as int).push(toks@[i as int]));
            } else if k == i {
                assert(a.remove(k as int) =~= b);
            } else {
                assert(a =~= b.push(toks@[i as int]));
            }
        }
        if i != k {
            out.push(clone_token(&toks[i]));
        }
        i += 1;
    }
    proof {
        assert(toks@.subrange(0, toks@.len() as int) =~= toks@);
    }
    out
}

/// Leaving a token out keeps every name plain.
proof fn lemma_plain_without(toks: Seq<Token>, k: int)
    requires
        names_plain(toks),
        0 <= k < toks.len(),
    ensures
        names_plain(without_at(toks, k)),
{
    let rest = without_at(toks, k);
    assert forall|i: int| 0 <= i < rest.len() && (#[trigger] rest[i].kind) is Name implies !rest[i].kind->Name_0@.contains('\'') by {
        let j = if i < k { i } else { i + 1 };
        assert(rest[i] == toks[j]);
    }
}

impl Machine {
    /// `print <expr>`: the value's text at the glyph cursor of the active buffer, in white;
    /// the cursor then moves on, wrapping the column grid (and the rows).
    fn do_print(&mut self, toks: &[Token], line: u32, out: &mut Vec<Event>) -> (r: Result<(), SchildpadError>)
        requires
            old(self).state_ok(),
            toks@.len() >= 1,
        ensures
            final(self).state_ok(),
            final(self).env@ == old(self).env@,
            final(self).turtles@ == old(self).turtles@,
            final(self).active_fb == old(self).active_fb,
            keeps_course(*old(self), *final(self)),
            error_line_is(r, line),
            r is Err ==> final(out)@ == old(out)@ && final(self).fbs@ == old(self).fbs@,
            r is Ok ==> ({
                let a = old(self).active_fb as int;
                let fb = old(self).fbs@[a];
                &&& final(out)@.len() == old(out)@.len() + 1
                &&& final(out)@.drop_last() == old(out)@
                &&& match final(out)@.last() {
                    Event::Draw(DrawOp::Text { fb: b, col, row, text, colour }) => {
                        let c = cursor_after(col as int, row as int, text@.len() as int, fb.cols as int, fb.rows as int);
                        &&& b == a as u8
                        &&& col == fb.cur_col
                        &&& row == fb.cur_row
                        &&& colour == "wit"
                        &&& final(self).fbs@ == old(self).fbs@.update(a, Framebuffer { cur_col: c.0 as u16, cur_row: c.1 as u16, ..fb })
                    },
                    _ => false,
                }
            }),
            arith_only(toks@.subrange(1, toks@.len() as int), old(self).env@) ==> (r is Ok <==> arith_value(
                toks@.subrange(1, toks@.len() as int),
                old(self).env@,
            ) is Some) && (r is Ok ==> match final(out)@.last() {
                Event::Draw(DrawOp::Text { text, .. }) => text@ == crate::value::num_text(
                    arith_value(toks@.subrange(1, toks@.len() as int), old(self).env@)->0,
                ),
                _ => false,
            }),
            print_of_nil(toks@, old(self).env@) ==> r is Err && r->Err_0.kind is PrintNil && r->Err_0.kind->PrintNil_name@
                == toks@[1].kind->Name_0@,
            plain_only(toks@.subrange(1, toks@.len() as int), old(self).env@) ==> (r is Ok <==> plain_value(
                toks@.subrange(1, toks@.len() as int),
                old(self).env@,
            ) is Some) && (r is Ok ==> match final(out)@.last() {
                Event::Draw(DrawOp::Text { text, .. }) => text@ == crate::expr::plain_text(
                    plain_value(toks@.subrange(1, toks@.len() as int), old(self).env@)->0,
                ),
                _ => false,
            }),
    {
        let expr_toks = token_range(toks, 1, toks.len());
        if expr_toks.len() == 1 {
            if let Tok::Name(raw) = &expr_toks[0].kind {
                let res = resolve_name(raw.as_str(), &self.env, line)?;
                if let Some(b) = self.env.get(res.name.as_str()) {
                    if let Value::Nil = b.value {
                        return Err(err(line, ErrorKind::PrintNil { name: res.name }));
                    }
                }
            }
        }
        let v = eval(expr_toks.as_slice(), &self.env, line)?;
        if let Value::Nil = v {
            return Err(err(line, ErrorKind::PrintNil { name: String::new() }));
        }
        let mut names: Vec<String> = Vec::new();
        let mut i: usize = 0;
        while i < self.turtles.len()
            invariant
                i <= self.turtles@.len(),
            decreases self.turtles@.len() - i,
        {
            names.push(self.turtles[i].name.clone());
            i += 1;
        }
        let text = str_of(&v, &names);
        let len = text.as_str().unicode_len();
        let a = self.active_fb;
        let fb = self.fbs[a];
        assert(fb_ok(self.fbs@[a as int]));
        let c: u128 = fb.cur_col as u128 + len as u128;
        let ncol = c % (fb.cols as u128);
        let nrow = (fb.cur_row as u128 + c / (fb.cols as u128)) % (fb.rows as u128);
        out.push(Event::Draw(DrawOp::Text { fb: a as u8, col: fb.cur_col, row: fb.cur_row, text, colour: "wit" }));
        self.fbs.set(a, Framebuffer { cur_col: ncol as u16, cur_row: nrow as u16, ..fb });
        proof {
            assert(out@.drop_last() =~= old(out)@);
            assert forall|j: int| 0 <= j < self.fbs@.len() implies fb_ok(#[trigger] self.fbs@[j]) by {
                if j != a {
                    assert(self.fbs@[j] == old(self).fbs@[j]);
                }
            }
        }
        Ok(())
    }

    /// `wrapmode wrap` / `wrapmode klem`: the edge policy of the active buffer.
    fn do_wrapmode(&mut self, toks: &[Token], line: u32, out: &mut Vec<Event>) -> (r: Result<(), SchildpadError>)
        requires
            old(self).state_ok(),
        ensures
            final(self).state_ok(),
            final(self).env@ == old(self).env@,
            final(self).turtles@ == old(self).turtles@,
            final(self).active_fb == old(self).active_fb,
            keeps_course(*old(self), *final(self)),
            error_line_is(r, line),
            r is Err ==> final(out)@ == old(out)@ && final(self).fbs@ == old(self).fbs@,
            r is Ok <==> wrap_word(toks@) is Some,
            r is Ok ==> ({
                let a = old(self).active_fb as int;
                let fb = old(self).fbs@[a];
                let mode = wrap_word(toks@)->0;
                &&& final(out)@ == old(out)@.push(Event::Draw(DrawOp::SetWrap { fb: a as u8, mode }))
                &&& final(self).fbs@ == old(self).fbs@.update(a, Framebuffer { wrap: mode, ..fb })
            }),
    {
        let mut mode: Option<WrapMode> = None;
        if toks.len() > 1 {
            if let Tok::Name(n) = &toks[1].kind {
                let cs = str_chars(n.as_str());
                let lower = ascii_lowercase(cs.as_slice());
                if chars_eq_str(lower.as_slice(), "wrap") {
                    mode = Some(WrapMode::Wrap);
                } else if chars_eq_str(lower.as_slice(), "klem") {
                    mode = Some(WrapMode::Clamp);
                }
            }
        }
        let mode = match mode {
            Some(m) => m,
            None => return Err(err(line, ErrorKind::NotUnderstood { text: string_of("wrapmode") })),
        };
        let a = self.active_fb;
        let fb = self.fbs[a];
        self.fbs.set(a, Framebuffer { wrap: mode, ..fb });
        out.push(Event::Draw(DrawOp::SetWrap { fb: a as u8, mode }));
        proof {
            assert forall|j: int| 0 <= j < self.fbs@.len() implies fb_ok(#[trigger] self.fbs@[j]) by {
                if j != a {
                    assert(self.fbs@[j] == old(self).fbs@[j]);
                }
            }
        }
        Ok(())
    }

    /// `naam = <expr> [type]`: rebind an existing name (a trailing type word casts).
    fn do_reassign(&mut self, toks: &[Token], line: u32, src: &str) -> (r: Result<(), SchildpadError>)
        requires
            old(self).state_ok(),
            toks@.len() >= 2,
        ensures
            final(self).state_ok(),
            only_env_changed(*old(self), *final(self)),
            error_line_is(r, line),
            toks@[0].kind is Name && !toks@[0].kind->Name_0@.contains('\'') && !old(self).env@.contains_key(
                key_of(toks@[0].kind->Name_0@),
            ) ==> r is Err && r->Err_0.kind is AssignToUndeclared && r->Err_0.kind->AssignToUndeclared_name@ == toks@[0].kind->Name_0@
                && rhs_of(src@, r->Err_0.kind->AssignToUndeclared_rhs@),
            r is Ok ==> toks@[0].kind is Name && reassign_effect(toks@, old(self).env@, final(self).env@),
    {
        let raw = match &toks[0].kind {
            Tok::Name(raw) => raw,
            _ => return Err(err(line, ErrorKind::NotAStatement { src: string_of(src) })),
        };
        let res = resolve_name(raw.as_str(), &self.env, line)?;
        if !self.env.has(res.name.as_str()) {
            let rhs = rhs_text(src);
            return Err(err(line, ErrorKind::AssignToUndeclared { rhs, name: res.name }));
        }
        let n = toks.len();
        let (expr_toks, cast) = match &toks[n - 1].kind {
            Tok::Type(t) if n > 2 => (token_range(toks, 2, n - 1), Some(*t)),
            _ => (token_range(toks, 2, n), None),
        };
        let v = eval(expr_toks.as_slice(), &self.env, line)?;
        proof {
            assert(env_refs_below(self.env@, self.turtles@.len()));
        }
        let v = match cast {
            Some(t) => coerce_to(t, v, line)?,
            None => v,
        };
        let ty = v.type_of();
        let ghost k = key_of(res.name@);
        self.bind(Binding { ty, value: v, name: res.name });
        proof {
            assert(self.env@.remove(k) =~= old(self).env@.remove(k));
            if !toks@[0].kind->Name_0@.contains('\'') && !(toks@[n - 1].kind is Type) {
                assert(expr_toks@ =~= reassign_value(toks@));
            }
        }
        Ok(())
    }

    /// `maak`: everything left of `=` (or the whole tail) is the binding target — one name and
    /// an optional type word, in either order; the value is whatever follows `=`. A verb on the
    /// right makes a named action.
    #[verifier::rlimit(100)]
    fn do_maak(&mut self, toks: &[Token], line: u32) -> (r: Result<(), SchildpadError>)
        requires
            old(self).state_ok(),
            toks@.len() >= 1,
        ensures
            final(self).state_ok(),
            keeps_course(*old(self), *final(self)),
            final(self).active_fb == old(self).active_fb,
            final(self).fbs@ == old(self).fbs@,
            error_line_is(r, line),
            r is Ok ==> maak_effect(toks@, old(self).env@, final(self).env@, old(self).turtles@, final(self).turtles@, old(self).active_fb as nat),
            maak_outcome(toks@, old(self).env@, crate::engine::failure(r)),
    {
        let n = toks.len();
        if n == 1 {
            return Err(err(line, ErrorKind::MaakNeedsName));
        }
        let mut eq: usize = 1;
        while eq < n && !is_eq_op(&toks[eq].kind)
            invariant
                1 <= eq <= n == toks@.len(),
                *self == *old(self),
                self.state_ok(),
                forall|j: int| 1 <= j < eq ==> #[trigger] toks@[j].kind != Tok::Op(61),
            decreases n - eq,
        {
            eq += 1;
        }
        proof {
            lemma_first_eq(toks@, 1, eq as int);
        }
        let mut name_raw: Option<String> = None;
        let mut ty: Option<Type> = None;
        let mut k: usize = 1;
        while k < eq
            invariant
                1 <= k <= eq <= n == toks@.len(),
                eq == first_eq(toks@, 1),
                *self == *old(self),
                self.state_ok(),
                k <= 3,
                k == 1 ==> name_raw is None && ty is None,
                k == 2 ==> (toks@[1].kind is Name && name_raw == Some(toks@[1].kind->Name_0) && ty is None) || (toks@[1].kind is Type
                    && ty == Some(toks@[1].kind->Type_0) && name_raw is None),
                k == 3 ==> (toks@[1].kind is Name && toks@[2].kind is Type && name_raw == Some(toks@[1].kind->Name_0) && ty == Some(
                    toks@[2].kind->Type_0,
                )) || (toks@[1].kind is Type && toks@[2].kind is Name && name_raw == Some(toks@[2].kind->Name_0) && ty == Some(
                    toks@[1].kind->Type_0,
                )),
            decreases eq - k,
        {
            let t = &toks[k];
            match &t.kind {
                Tok::Type(tt) => {
                    if ty.is_some() {
                        return Err(err(line, ErrorKind::ReservedAsName { word: tok_text(&t.kind) }));
                    }
                    ty = Some(*tt);
                },
                Tok::Name(raw) => {
                    match &name_raw {
                        Some(first) => {
                            return Err(err(line, ErrorKind::MaakNotUnderstood { src: joined_src(toks), name: first.clone() }));
                        },
                        None => {},
                    }
                    name_raw = Some(raw.clone());
                },
                other => {
                    if reserved_non_type(other) {
                        return Err(err(line, ErrorKind::ReservedAsName { word: tok_text(other) }));
                    }
                    return Err(err(line, ErrorKind::MaakNameNotAWord { word: tok_text(other) }));
                },
            }
            k += 1;
        }
        let raw = match name_raw {
            Some(r) => r,
            None => {
                return Err(
                    match ty {
                        Some(t) => err(line, ErrorKind::ReservedAsName { word: string_of(t.nl()) }),
                        None => err(line, ErrorKind::MaakNeedsName),
                    },
                );
            },
        };
        proof {
            assert(maak_target(toks@) == Some((raw@, ty)));
        }
        let res = resolve_name(raw.as_str(), &self.env, line)?;
        let name = res.name;
        let has_value = eq < n;
        let vals = if has_value { token_range(toks, eq + 1, n) } else { Vec::new() };
        let ghost k = key_of(name@);
        let ghost env0 = self.env@;
        proof {
            assert(env_refs_below(self.env@, self.turtles@.len()));
        }
        match ty {
            None => {
                if !has_value {
                    self.bind(Binding { ty: Type::Nil, value: Value::Nil, name });
                    proof {
                        assert(self.env@.remove(k) =~= env0.remove(k));
                    }
                    return Ok(());
                }
                let mut vk: usize = 0;
                while vk < vals.len() && !matches!(vals[vk].kind, Tok::Verb(_))
                    invariant
                        vk <= vals@.len(),
                        *self == *old(self),
                        self.state_ok(),
                        forall|j: int| 0 <= j < vk ==> !(#[trigger] vals@[j].kind is Verb),
                    decreases vals@.len() - vk,
                {
                    vk += 1;
                }
                proof {
                    lemma_first_verb(vals@, vk as int);
                }
                if vk < vals.len() {
                    let verb = match vals[vk].kind {
                        Tok::Verb(v) => v,
                        _ => Verb::Vooruit,
                    };
                    if verb == Verb::Play {
                        return Err(err(line, ErrorKind::CurryPlay));
                    }
                    let sig = verb_sig(verb);
                    let sv = resolve_slots(&sig, vals.as_slice(), &self.env, &mut self.rng, line, SlotValues::empty(), None, true)?;
                    let value = Value::Frame(PartialFrame { verb, filled: sv });
                    self.bind(Binding { ty: Type::Nil, value, name });
                } else {
                    let v = eval(vals.as_slice(), &self.env, line)?;
                    let ty = v.type_of();
                    self.bind(Binding { ty, value: v, name });
                }
                proof {
                    assert(self.env@.remove(k) =~= env0.remove(k));
                }
            },
            Some(Type::Schildpad) => {
                if has_value {
                    return Err(err(line, ErrorKind::MaakNotUnderstood { src: joined_src(toks), name }));
                }
                let id = self.summon(name.clone());
                self.bind(Binding { ty: Type::Schildpad, value: Value::Schildpad(id), name });
                proof {
                    assert(self.env@.remove(k) =~= env0.remove(k));
                    assert(self.turtles@.drop_last() =~= old(self).turtles@);
                }
            },
            Some(Type::Deuntje) => {
                let value = if has_value {
                    Value::Deuntje(gather_deuntje(vals.as_slice(), line)?)
                } else {
                    Value::Nil
                };
                self.bind(Binding { ty: Type::Deuntje, value, name });
                proof {
                    assert(self.env@.remove(k) =~= env0.remove(k));
                }
            },
            Some(t) => {
                let value = if has_value {
                    let v = eval(vals.as_slice(), &self.env, line)?;
                    proof {
                        if vals@.len() == 1 && is_literal(vals@[0].kind) && literal_type(vals@[0].kind) == t {
                            assert(crate::value::value_type(v) == t);
                        }
                    }
                    coerce_to(t, v, line)?
                } else {
                    Value::Nil
                };
                self.bind(Binding { ty: t, value, name });
                proof {
                    assert(self.env@.remove(k) =~= env0.remove(k));
                }
            },
        }
        Ok(())
    }

    /// `play`: notes, numbers (hertz), `stilte`, `random` (one of the seven notes) and named
    /// tones or tunes, gathered left to right into one sequence at 120 beats a minute.
    fn do_play(&mut self, toks: &[Token], line: u32, out: &mut Vec<Event>) -> (r: Result<(), SchildpadError>)
        requires
            old(self).state_ok(),
        ensures
            final(self).state_ok(),
            final(self).env@ == old(self).env@,
            final(self).turtles@ == old(self).turtles@,
            final(self).fbs@ == old(self).fbs@,
            final(self).active_fb == old(self).active_fb,
            keeps_course(*old(self), *final(self)),
            error_line_is(r, line),
            r is Err ==> final(out)@ == old(out)@,
            r is Ok ==> final(out)@.len() == old(out)@.len() + 1 && final(out)@.drop_last() == old(out)@ && match final(out)@.last() {
                Event::Audio(AudioCmd::Sequence { tempo_bpm, voices }) => tempo_bpm == 120 && voices@.len() > 0,
                _ => false,
            },
            names_plain(toks@) ==> match play_upto(toks@, toks@.len() as int, old(self).env@, old(self).rng@) {
                None => r is Err,
                Some((vs, st)) => final(self).rng@ == st && (r is Ok <==> vs.len() > 0) && (r is Ok ==> match final(out)@.last() {
                    Event::Audio(AudioCmd::Sequence { voices, .. }) => voices@.map_values(|v: Voice| voice_v(v)) == vs,
                    _ => false,
                }),
            },
    {
        let sig = verb_sig(Verb::Play);
        let one = Getal::from_i64(1);
        let mut voices: Vec<Voice> = Vec::new();
        let mut i: usize = 0;
        while i < toks.len()
            invariant
                i <= toks@.len(),
                self.state_ok(),
                self.env@ == old(self).env@,
                self.turtles@ == old(self).turtles@,
                self.fbs@ == old(self).fbs@,
                self.active_fb == old(self).active_fb,
                keeps_course(*old(self), *self),
                sig.verb == Verb::Play,
                crate::vocab::verb_sampler_matches(Verb::Play, sig.sampler),
                one@ == (1int, 1int),
                names_plain(toks@) ==> (play_upto(toks@, i as int, old(self).env@, old(self).rng@) matches Some((vs, st))
                    && voices@.map_values(|v: Voice| voice_v(v)) == vs && self.rng@ == st),
            decreases toks@.len() - i,
        {
            let ghost vs0 = voices@;
            let ghost st0 = self.rng@;
            let ghost env0 = old(self).env@;
                        proof {
                if names_plain(toks@) {
                    assert(play_upto(toks@, i + 1, env0, old(self).rng@) == play_token(toks@[i as int].kind, env0, vs0.map_values(|v: Voice| voice_v(v)), st0));
                }
            }
            match &toks[i].kind {
                Tok::Number(n) => {
                    voices.push(plain_voice(Some(*n), one));
                    proof {
                        assert(voices@.map_values(|v: Voice| voice_v(v)) =~= vs0.map_values(|v: Voice| voice_v(v)).push(plain_v(Some(n@), (1, 1))));
                    }
                },
                Tok::Note(nt, beats) => {
                    let hz = note_hz(*nt);
                    voices.push(plain_voice(Some(hz), *beats));
                    proof {
                        assert(voices@.map_values(|v: Voice| voice_v(v)) =~= vs0.map_values(|v: Voice| voice_v(v)).push(plain_v(Some(note_pitch(*nt)), beats@)));
                    }
                },
                Tok::Const(c) => {
                    if let ConstVal::Rest = constant_value(*c) {
                        voices.push(plain_voice(None, one));
                        proof {
                            assert(voices@.map_values(|v: Voice| voice_v(v)) =~= vs0.map_values(|v: Voice| voice_v(v)).push(plain_v(None, (1, 1))));
                        }
                    }
                },
                Tok::Random => {
                    if let Some(Sampler::ChoiceNote(opts)) = sig.sampler {
                        let nt = *self.rng.choice(opts);
                        let hz = note_hz(nt);
                        voices.push(plain_voice(Some(hz), one));
                        proof {
                            assert(voices@.map_values(|v: Voice| voice_v(v)) =~= vs0.map_values(|v: Voice| voice_v(v)).push(plain_v(Some(note_pitch(nt)), (1, 1))));
                        }
                    }
                },
                Tok::Name(raw) => {
                    let res = resolve_name(raw.as_str(), &self.env, line)?;
                    match self.env.get(res.name.as_str()) {
                        Some(b) => match &b.value {
                            Value::Deuntje(d) => {
                                let mut j: usize = 0;
                                while j < d.voices.len()
                                    invariant
                                        j <= d.voices@.len(),
                                        voices@.map_values(|v: Voice| voice_v(v)) == vs0.map_values(|v: Voice| voice_v(v)) + d.voices@.subrange(0, j as int).map_values(|x: Toon| toon_v(x)),
                                    decreases d.voices@.len() - j,
                                {
                                    let ghost before = voices@;
                                    let vo = voice_of(&d.voices[j]);
                                    voices.push(vo);
                                    proof {
                                        assert(voice_v(vo) == toon_v(d.voices@[j as int]));
                                        assert(voices@.map_values(|v: Voice| voice_v(v)) =~= before.map_values(|v: Voice| voice_v(v)).push(voice_v(vo)));
                                        assert(d.voices@.subrange(0, j + 1) =~= d.voices@.subrange(0, j as int).push(d.voices@[j as int]));
                                        assert(d.voices@.subrange(0, j + 1).map_values(|x: Toon| toon_v(x)) =~= d.voices@.subrange(0, j as int).map_values(|x: Toon| toon_v(x)).push(toon_v(d.voices@[j as int])));
                                        assert(voices@.map_values(|v: Voice| voice_v(v)) =~= vs0.map_values(|v: Voice| voice_v(v)) + d.voices@.subrange(0, j + 1).map_values(|x: Toon| toon_v(x)));
                                    }
                                    j += 1;
                                }
                                proof {
                                    assert(d.voices@.subrange(0, j as int) =~= d.voices@);
                                }
                            },
                            Value::Toon(t) => {
                                voices.push(voice_of(t));
                                proof {
                                    assert(voices@.map_values(|v: Voice| voice_v(v)) =~= vs0.map_values(|v: Voice| voice_v(v)).push(toon_v(*t)));
                                }
                            },
                            _ => {
                                proof {
                                    if names_plain(toks@) {
                                        lemma_play_fails_on(toks@, i + 1, toks@.len() as int, env0, old(self).rng@);
                                    }
                                }
                                return Err(err(line, ErrorKind::TypeMismatch { wanted: string_of("deuntje"), got: string_of(b.ty.nl()) }));
                            },
                        },
                        None => {
                            proof {
                                if names_plain(toks@) {
                                    lemma_play_fails_on(toks@, i + 1, toks@.len() as int, env0, old(self).rng@);
                                }
                            }
                            return Err(err(line, ErrorKind::UnknownName { name: res.name }));
                        },
                    }
                },
                _ => {},
            }
            i += 1;
        }
        if voices.len() == 0 {
            return Err(err(line, ErrorKind::NotUnderstood { text: string_of("play") }));
        }
        out.push(Event::Audio(AudioCmd::Sequence { tempo_bpm: 120, voices }));
        proof {
            assert(out@.drop_last() =~= old(out)@);
        }
        Ok(())
    }
}

/// A voice as plain values: its pitch (none for a rest), its beats, its oscillator and its
/// envelope.
pub open spec fn voice_v(v: Voice) -> (Option<(int, int)>, (int, int), Seq<char>, Seq<char>) {
    (match v.pitch_hz {
        Some(g) => Some(g@),
        None => None,
    }, v.beats@, v.osc@, v.env@)
}

/// The voice a tone plays as.
pub open spec fn toon_v(t: Toon) -> (Option<(int, int)>, (int, int), Seq<char>, Seq<char>) {
    (match t.pitch_hz {
        Some(g) => Some(g@),
        None => None,
    }, t.beats@, osc_word(t.osc)@, envelope_word(t.env)@)
}

/// A plain sine voice with a short envelope.
pub open spec fn plain_v(hz: Option<(int, int)>, beats: (int, int)) -> (Option<(int, int)>, (int, int), Seq<char>, Seq<char>) {
    (hz, beats, "sinus"@, "kort"@)
}

/// The pitch of a note, in hertz.
pub open spec fn note_pitch(n: Note) -> (int, int) {
    crate::number::normal_form(note_centihertz(n), 100)->0
}

/// What one token of a `play` line adds to the voices `vs`, with the generator at `st`: a
/// number is a pitch of one beat, a note its pitch with its beats, `stilte` a rest of one
/// beat, `random` a note drawn from all seven, a name of a deuntje its voices and of a toon
/// that voice; a name of anything else, or of nothing, fails. Other tokens add nothing.
pub open spec fn play_token(t: Tok, env: Map<Seq<char>, Binding>, vs: Seq<(Option<(int, int)>, (int, int), Seq<char>, Seq<char>)>, st: u64) -> Option<(Seq<(Option<(int, int)>, (int, int), Seq<char>, Seq<char>)>, u64)> {
    match t {
        Tok::Number(g) => Some((vs.push(plain_v(Some(g@), (1, 1))), st)),
        Tok::Note(n, b) => Some((vs.push(plain_v(Some(note_pitch(n)), b@)), st)),
        Tok::Const(c) => if constant_meaning(c) == ConstVal::Rest { Some((vs.push(plain_v(None, (1, 1))), st)) } else { Some((vs, st)) },
        Tok::Random => {
            let st2 = xorshift(st);
            let n = all_notes()[((scramble(st2) as usize) as int) % 7];
            Some((vs.push(plain_v(Some(note_pitch(n)), (1, 1))), st2))
        },
        Tok::Name(raw) => {
            let k = key_of(raw@);
            if !env.contains_key(k) {
                None
            } else {
                match env[k].value {
                    Value::Deuntje(d) => Some((vs + d.voices@.map_values(|x: Toon| toon_v(x)), st)),
                    Value::Toon(x) => Some((vs.push(toon_v(x)), st)),
                    _ => None,
                }
            }
        },
        _ => Some((vs, st)),
    }
}

/// The voices of the first `n` tokens of a `play` line and the generator after them, starting
/// from `st` (none when a name fails).
pub open spec fn play_upto(toks: Seq<Token>, n: int, env: Map<Seq<char>, Binding>, st: u64) -> Option<(Seq<(Option<(int, int)>, (int, int), Seq<char>, Seq<char>)>, u64)>
    decreases n,
{
    if n <= 0 {
        Some((Seq::empty(), st))
    } else {
        match play_upto(toks, n - 1, env, st) {
            None => None,
            Some((vs, st1)) => play_token(toks[n - 1].kind, env, vs, st1),
        }
    }
}

proof fn lemma_play_fails_on(toks: Seq<Token>, i: int, n: int, env: Map<Seq<char>, Binding>, st: u64)
    requires
        0 <= i <= n,
        play_upto(toks, i, env, st) is None,
    ensures
        play_upto(toks, n, env, st) is None,
    decreases n - i,
{
    if i < n {
        lemma_play_fails_on(toks, i, n - 1, env, st);
    }
}

/// The new stack is a prefix of the old one.
spec fn stack_prefix(old_m: Machine, new_m: Machine) -> bool {
    &&& new_m.stack@.len() <= old_m.stack@.len()
    &&& new_m.stack@ == old_m.stack@.subrange(0, new_m.stack@.len() as int)
}

proof fn lemma_rest_line_done(
    toks: Seq<Token>,
    env: Map<Seq<char>, Binding>,
    env2: Map<Seq<char>, Binding>,
    ts: Seq<Turtle>,
    ts2: Seq<Turtle>,
    fbs: Seq<Framebuffer>,
    fbs2: Seq<Framebuffer>,
    active: nat,
    st: u64,
    st2: u64,
    evs: Seq<Event>,
    fail: Option<SchildpadError>,
)
    requires
        rest_line(toks),
        play_done(toks, env, env2, ts, ts2, fbs, fbs2, st, st2, evs, fail),
        turtle_line_done(toks, env, env2, ts, ts2, fbs, fbs2, evs, fail),
        action_line_done(toks, env, env2, ts, ts2, fbs, fbs2, evs, fail),
    ensures
        simple_done(toks, env, env2, ts, ts2, fbs, fbs2, active, st, st2, evs, fail),
{
    reveal(simple_done);
}

impl Machine {
    /// Execute one simple (non-block) statement.
    fn exec_simple(&mut self, toks: &[Token], line: u32, src: &str, out: &mut Vec<Event>) -> (r: Result<(), SchildpadError>)
        requires
            old(self).state_ok(),
        ensures
            final(self).state_ok(),
            stack_prefix(*old(self), *final(self)),
            final(self).stack@ == if is_stop_line(toks@) { after_stop(old(self).stack@) } else { old(self).stack@ },
            is_stop_line(toks@) ==> r is Ok,
            final(self).done == old(self).done,
            final(self).seed == old(self).seed,
            error_line_is(r, line),
            appends_output(old(out)@, final(out)@),
            toks@.len() == 0 ==> r is Ok && final(out)@ == old(out)@,
            toks@.len() > 0 && toks@[0].kind == Tok::Random ==> r is Err && r->Err_0.kind == ErrorKind::BareRandom,
            simple_done(
                toks@,
                old(self).env@,
                final(self).env@,
                old(self).turtles@,
                final(self).turtles@,
                old(self).fbs@,
                final(self).fbs@,
                old(self).active_fb as nat,
                old(self).rng@,
                final(self).rng@,
                final(out)@.subrange(old(out)@.len() as int, final(out)@.len() as int),
                failure(r),
            ),
    {
        proof {
            assert(out@.subrange(0, out@.len() as int) =~= out@);
            assert(self.stack@.subrange(0, self.stack@.len() as int) =~= self.stack@);
        }
        if toks.len() == 0 {
            proof {
                reveal(simple_done);
            }
            return Ok(());
        }
        let ghost before = out@;
        match &toks[0].kind {
            Tok::Maak => {
                let r = self.do_maak(toks, line);
                proof {
                    reveal(simple_done);
                }
                r
            },
            Tok::Print => {
                let r = self.do_print(toks, line, out);
                proof {
                    reveal(simple_done);
                    if r is Ok {
                        assert(out@.subrange(0, before.len() as int) =~= before);
                    }
                }
                r
            },
            Tok::WrapMode => {
                let r = self.do_wrapmode(toks, line, out);
                proof {
                    reveal(simple_done);
                    if r is Ok {
                        assert(out@.subrange(0, before.len() as int) =~= before);
                        assert(out@.subrange(before.len() as int, out@.len() as int) =~= seq![out@.last()]);
                    }
                }
                r
            },
            Tok::Stop => {
                proof {
                    reveal(simple_done);
                }
                if toks.len() > 1 {
                    return Err(err(line, ErrorKind::UnconsumedTokens { leftover: tok_text(&toks[1].kind) }));
                }
                proof {
                    law_stop_cuts_at_innermost_loop(self.stack@);
                }
                self.do_stop();
                proof {
                    if innermost_loop(old(self).stack@) >= 0 {
                        assert(self.stack@ =~= old(self).stack@.subrange(0, self.stack@.len() as int));
                    }
                }
                Ok(())
            },
            Tok::Random => {
                proof {
                    reveal(simple_done);
                }
                Err(err(line, ErrorKind::BareRandom))
            },
            Tok::Name(_) if toks.len() > 1 && is_eq_op(&toks[1].kind) => {
                let r = self.do_reassign(toks, line, src);
                proof {
                    reveal(simple_done);
                }
                r
            },
            _ => {
                let r = self.exec_verb_line(toks, line, src, out);
                proof {
                    lemma_rest_line_done(
                        toks@,
                        old(self).env@,
                        self.env@,
                        old(self).turtles@,
                        self.turtles@,
                        old(self).fbs@,
                        self.fbs@,
                        old(self).active_fb as nat,
                        old(self).rng@,
                        self.rng@,
                        out@.subrange(old(out)@.len() as int, out@.len() as int),
                        failure(r),
                    );
                }
                r
            },
        }
    }

    /// A line of a turtle verb, of `play`, or of a named action.
    fn exec_verb_line(&mut self, toks: &[Token], line: u32, src: &str, out: &mut Vec<Event>) -> (r: Result<(), SchildpadError>)
        requires
            old(self).state_ok(),
            toks@.len() > 0,
            toks@[0].kind != Tok::Maak,
            toks@[0].kind != Tok::Print,
            toks@[0].kind != Tok::WrapMode,
            toks@[0].kind != Tok::Stop,
            toks@[0].kind != Tok::Random,
            !(toks@[0].kind is Name && toks@.len() > 1 && toks@[1].kind == Tok::Op(61)),
        ensures
            final(self).state_ok(),
            final(self).stack@ == old(self).stack@,
            final(self).done == old(self).done,
            final(self).seed == old(self).seed,
            error_line_is(r, line),
            appends_output(old(out)@, final(out)@),
            play_done(
                toks@,
                old(self).env@,
                final(self).env@,
                old(self).turtles@,
                final(self).turtles@,
                old(self).fbs@,
                final(self).fbs@,
                old(self).rng@,
                final(self).rng@,
                final(out)@.subrange(old(out)@.len() as int, final(out)@.len() as int),
                failure(r),
            ),
            turtle_line_done(
                toks@,
                old(self).env@,
                final(self).env@,
                old(self).turtles@,
                final(self).turtles@,
                old(self).fbs@,
                final(self).fbs@,
                final(out)@.subrange(old(out)@.len() as int, final(out)@.len() as int),
                failure(r),
            ),
            action_line_done(
                toks@,
                old(self).env@,
                final(self).env@,
                old(self).turtles@,
                final(self).turtles@,
                old(self).fbs@,
                final(self).fbs@,
                final(out)@.subrange(old(out)@.len() as int, final(out)@.len() as int),
                failure(r),
            ),
    {
        proof {
            assert(out@.subrange(0, out@.len() as int) =~= out@);
        }
        let ghost before = out@;
        let mut k: usize = 0;
        while k < toks.len() && !matches!(toks[k].kind, Tok::Verb(_))
            invariant
                k <= toks@.len(),
                out@ == before,
                forall|j: int| 0 <= j < k ==> !(#[trigger] toks@[j].kind is Verb),
            decreases toks@.len() - k,
        {
            k += 1;
        }
        proof {
            lemma_first_verb(toks@, k as int);
        }
        if k < toks.len() {
            let v = match toks[k].kind {
                Tok::Verb(v) => v,
                _ => Verb::Vooruit,
            };
            if v == Verb::Play {
                let r = self.do_play(toks, line, out);
                proof {
                    if r is Ok {
                        assert(out@.subrange(0, before.len() as int) =~= before);
                    }
                }
                return r;
            }
            let r = self.do_verb(v, toks, line, out);
            return r;
        }
        self.exec_action_line(toks, line, src, out)
    }

    /// A line without a verb: it invokes the first named action it names.
    fn exec_action_line(&mut self, toks: &[Token], line: u32, src: &str, out: &mut Vec<Event>) -> (r: Result<(), SchildpadError>)
        requires
            old(self).state_ok(),
            toks@.len() > 0,
            toks@[0].kind != Tok::Maak,
            toks@[0].kind != Tok::Print,
            toks@[0].kind != Tok::WrapMode,
            toks@[0].kind != Tok::Stop,
            toks@[0].kind != Tok::Random,
            !(toks@[0].kind is Name && toks@.len() > 1 && toks@[1].kind == Tok::Op(61)),
            first_verb(toks@) is None,
        ensures
            final(self).state_ok(),
            final(self).stack@ == old(self).stack@,
            final(self).done == old(self).done,
            final(self).seed == old(self).seed,
            error_line_is(r, line),
            appends_output(old(out)@, final(out)@),
            play_done(
                toks@,
                old(self).env@,
                final(self).env@,
                old(self).turtles@,
                final(self).turtles@,
                old(self).fbs@,
                final(self).fbs@,
                old(self).rng@,
                final(self).rng@,
                final(out)@.subrange(old(out)@.len() as int, final(out)@.len() as int),
                failure(r),
            ),
            turtle_line_done(
                toks@,
                old(self).env@,
                final(self).env@,
                old(self).turtles@,
                final(self).turtles@,
                old(self).fbs@,
                final(self).fbs@,
                final(out)@.subrange(old(out)@.len() as int, final(out)@.len() as int),
                failure(r),
            ),
            action_line_done(
                toks@,
                old(self).env@,
                final(self).env@,
                old(self).turtles@,
                final(self).turtles@,
                old(self).fbs@,
                final(self).fbs@,
                final(out)@.subrange(old(out)@.len() as int, final(out)@.len() as int),
                failure(r),
            ),
    {
        proof {
            assert(out@.subrange(0, out@.len() as int) =~= out@);
        }
        assert(verb_line(toks@) is None);
        let n = toks.len();
        let ghost env0 = self.env@;
        let found = self.find_action(toks, line);
        match found {
            Some((idx, f)) => {
                proof {
                    if names_plain(toks@) {
                        assert(idx < n);
                        assert(first_action(toks@, env0, 0) == Some((idx as int, f)));
                    }
                }
                self.invoke(f, idx, toks, line, out)
            },
            None => Err(err(line, ErrorKind::NotAStatement { src: string_of(src) })),
        }
    }

    /// Execute one statement of a block. A loop or `als` header pushes the frame of the block
    /// to run next.
    fn exec_node(&mut self, node: &Stmt, Ghost(n): Ghost<nat>, out: &mut Vec<Event>) -> (r: Result<(), SchildpadError>)
        requires
            old(self).state_ok(),
            old(self).stack_ok(n),
            stmt_refs_below(*node, n),
        ensures
            final(self).state_ok(),
            final(self).stack_ok(n),
            final(self).done == old(self).done,
            final(self).seed == old(self).seed,
            error_line_is(r, line_of(*node)),
            appends_output(old(out)@, final(out)@),
            match *node {
                Stmt::Simple { toks, .. } => stack_prefix(*old(self), *final(self)) && final(self).stack@ == (if is_stop_line(
                    toks@,
                ) {
                    after_stop(old(self).stack@)
                } else {
                    old(self).stack@
                }) && simple_done(
                    toks@,
                    old(self).env@,
                    final(self).env@,
                    old(self).turtles@,
                    final(self).turtles@,
                    old(self).fbs@,
                    final(self).fbs@,
                    old(self).active_fb as nat,
                    old(self).rng@,
                    final(self).rng@,
                    final(out)@.subrange(old(out)@.len() as int, final(out)@.len() as int),
                    failure(r),
                ),
                Stmt::Loop { unbounded, count, body, .. } => if unbounded {
                    r is Ok && final(self).stack@ == old(self).stack@.push(
                        ExecFrame { block: body, idx: 0, kind: FrameKind::Unbounded },
                    )
                } else {
                    &&& r is Ok ==> final(self).stack@ == old(self).stack@ || (final(self).stack@.drop_last() == old(self).stack@
                        && final(self).stack@.last().block == body && final(self).stack@.last().idx == 0
                        && final(self).stack@.last().kind is Count)
                    &&& count is None ==> r is Ok && final(self).stack@ == old(self).stack@
                    &&& count is Some && plain_only(count->0@, old(self).env@) ==> match plain_value(count->0@, old(self).env@) {
                        Some(Plain::Num(x)) => r is Ok && final(self).stack@ == after_loop_header(old(self).stack@, body, pass_count(x)),
                        _ => r is Err,
                    }
                    &&& count is Some && arith_only(count->0@, old(self).env@) ==> (r is Ok <==> arith_value(count->0@, old(self).env@) is Some)
                        && (r is Ok ==> final(self).stack@ == after_loop_header(
                        old(self).stack@,
                        body,
                        pass_count(arith_value(count->0@, old(self).env@)->0),
                    ))
                },
                Stmt::If { lhs, relation, rhs, then_b, else_b, .. } => {
                    &&& r is Ok ==> final(self).stack@ == old(self).stack@.push(
                        ExecFrame { block: then_b, idx: 0, kind: FrameKind::Once },
                    ) || match else_b {
                        Some(e) => final(self).stack@ == old(self).stack@.push(ExecFrame { block: e, idx: 0, kind: FrameKind::Once }),
                        None => final(self).stack@ == old(self).stack@,
                    }
                    &&& arith_only(lhs@, old(self).env@) && arith_only(rhs@, old(self).env@) ==> (r is Ok <==> (arith_value(
                        lhs@,
                        old(self).env@,
                    ) is Some && arith_value(rhs@, old(self).env@) is Some)) && (r is Ok ==> final(self).stack@ == after_if_header(
                        old(self).stack@,
                        then_b,
                        else_b,
                        relation_holds(relation, arith_value(lhs@, old(self).env@)->0, arith_value(rhs@, old(self).env@)->0),
                    ))
                    &&& plain_only(lhs@, old(self).env@) && plain_only(rhs@, old(self).env@) ==> match (
                        plain_value(lhs@, old(self).env@),
                        plain_value(rhs@, old(self).env@),
                    ) {
                        (Some(Plain::Num(a)), Some(Plain::Num(b))) => r is Ok && final(self).stack@ == after_if_header(
                            old(self).stack@,
                            then_b,
                            else_b,
                            relation_holds(relation, a, b),
                        ),
                        _ => r is Err,
                    }
                },
            },
    {
        proof {
            assert(out@.subrange(0, out@.len() as int) =~= out@);
        }
        match node {
            Stmt::Simple { line, toks, src } => {
                let r = self.exec_simple(toks.as_slice(), *line, src.as_str(), out);
                proof {
                    assert forall|i: int| 0 <= i < self.stack@.len() implies (#[trigger] self.stack@[i]).block < n by {
                        assert(self.stack@[i] == old(self).stack@.subrange(0, self.stack@.len() as int)[i]);
                    }
                }
                r
            },
            Stmt::Loop { line, unbounded, count, body } => {
                if *unbounded {
                    self.stack.push(ExecFrame { block: *body, idx: 0, kind: FrameKind::Unbounded });
                } else {
                    let reps = match count {
                        Some(c) => {
                            let v = eval(c.as_slice(), &self.env, *line)?;
                            let g = to_num(&v, *line)?;
                            loop_count(&g)
                        },
                        None => 0,
                    };
                    if reps > 0 {
                        self.stack.push(ExecFrame { block: *body, idx: 0, kind: FrameKind::Count { reps: reps - 1 } });
                    }
                }
                Ok(())
            },
            Stmt::If { line, lhs, relation, rhs, then_b, else_b } => {
                let lv = eval(lhs.as_slice(), &self.env, *line)?;
                let l = to_num(&lv, *line)?;
                let rv = eval(rhs.as_slice(), &self.env, *line)?;
                let r = to_num(&rv, *line)?;
                let truth = holds(*relation, &l, &r);
                if truth {
                    self.stack.push(ExecFrame { block: *then_b, idx: 0, kind: FrameKind::Once });
                } else if let Some(e) = else_b {
                    self.stack.push(ExecFrame { block: *e, idx: 0, kind: FrameKind::Once });
                }
                Ok(())
            },
        }
    }
}

/// Does `l <relation> r` hold (`groter`, `kleiner`, `gelijk`), exactly?
fn holds(relation: Cmp, l: &Getal, r: &Getal) -> (b: bool)
    ensures
        relation == Cmp::Groter ==> b == (r@.0 * l@.1 < l@.0 * r@.1),
        relation == Cmp::Kleiner ==> b == (l@.0 * r@.1 < r@.0 * l@.1),
        relation == Cmp::Gelijk ==> b == crate::number::same_value(l@, r@),
{
    match relation {
        Cmp::Groter => r.lt(l),
        Cmp::Kleiner => l.lt(r),
        Cmp::Gelijk => l.same(r),
    }
}

/// A frame that has nothing left to run: it stands past the end of its block and will not
/// start that block over (it runs once, its count is used up, or its block is empty).
pub open spec fn spent(f: ExecFrame, blocks: Seq<Vec<Stmt>>) -> bool {
    let len = blocks[f.block as int]@.len();
    &&& f.idx >= len
    &&& (len == 0 || f.kind == FrameKind::Once || f.kind == (FrameKind::Count { reps: 0 }))
}

/// Every frame has nothing left to run: the program is over.
pub open spec fn all_spent(frames: Seq<ExecFrame>, blocks: Seq<Vec<Stmt>>) -> bool {
    forall|i: int| 0 <= i < frames.len() ==> spent(#[trigger] frames[i], blocks)
}

/// The repetitions left in the innermost frame (the measure that makes unwinding finish).
pub open spec fn top_reps(st: Seq<ExecFrame>) -> nat {
    if st.len() == 0 {
        0
    } else {
        match st.last().kind {
            FrameKind::Count { reps } => reps as nat,
            _ => 0,
        }
    }
}

/// 1 when the innermost frame has run past the end of its block.
pub open spec fn top_used_up(st: Seq<ExecFrame>, blocks: Seq<Vec<Stmt>>) -> nat {
    if st.len() == 0 {
        0
    } else if st.last().block < blocks.len() && st.last().idx < blocks[st.last().block as int]@.len() {
        0
    } else {
        1
    }
}

/// The frame stack once finished frames are unwound: a counted loop with passes left starts
/// its block again, an unbounded loop over a non-empty block starts over, anything else that
/// has run past its end is dropped.
pub open spec fn settle(frames: Seq<ExecFrame>, blocks: Seq<Vec<Stmt>>) -> Seq<ExecFrame>
    decreases frames.len(), top_reps(frames), top_used_up(frames, blocks),
{
    if frames.len() == 0 {
        frames
    } else {
        let top = frames.last();
        let k = frames.len() - 1;
        if top.block >= blocks.len() || top.idx < blocks[top.block as int]@.len() {
            frames
        } else {
            match top.kind {
                FrameKind::Count { reps } => if reps > 0 {
                    settle(frames.update(k, ExecFrame { block: top.block, idx: 0, kind: FrameKind::Count { reps: (reps - 1) as u64 } }), blocks)
                } else {
                    settle(frames.drop_last(), blocks)
                },
                FrameKind::Unbounded => if blocks[top.block as int]@.len() == 0 {
                    settle(frames.drop_last(), blocks)
                } else {
                    settle(frames.update(k, ExecFrame { block: top.block, idx: 0, kind: FrameKind::Unbounded }), blocks)
                },
                FrameKind::Once => settle(frames.drop_last(), blocks),
            }
        }
    }
}

/// The statement the settled stack stands at.
pub open spec fn next_stmt(frames: Seq<ExecFrame>, blocks: Seq<Vec<Stmt>>) -> Stmt {
    let st = settle(frames, blocks);
    blocks[st.last().block as int]@[st.last().idx as int]
}

/// Every frame refers to one of `n` blocks.
pub open spec fn frames_below(st: Seq<ExecFrame>, n: nat) -> bool {
    forall|i: int| 0 <= i < st.len() ==> (#[trigger] st[i]).block < n
}

/// Unwind finished frames of `stack`: a counted loop with passes left starts its block again,
/// an unbounded loop over a non-empty block starts over, anything else finished is dropped.
fn settle_frames(stack: &mut Vec<ExecFrame>, blocks: &Vec<Vec<Stmt>>)
    requires
        frames_below(old(stack)@, blocks@.len()),
    ensures
        frames_below(final(stack)@, blocks@.len()),
        all_spent(final(stack)@, blocks@) == all_spent(old(stack)@, blocks@),
        final(stack)@ == settle(old(stack)@, blocks@),
        final(stack)@.len() > 0 ==> final(stack)@.last().idx < blocks@[final(stack)@.last().block as int]@.len(),
{
    let ghost nb = blocks@.len();
    loop
        invariant
            frames_below(stack@, nb),
            nb == blocks@.len(),
            all_spent(stack@, blocks@) == all_spent(old(stack)@, blocks@),
            settle(stack@, blocks@) == settle(old(stack)@, blocks@),
        ensures
            frames_below(stack@, nb),
            all_spent(stack@, blocks@) == all_spent(old(stack)@, blocks@),
            settle(stack@, blocks@) == stack@,
            settle(old(stack)@, blocks@) == stack@,
            stack@.len() > 0 ==> stack@.last().idx < blocks@[stack@.last().block as int]@.len(),
        decreases stack@.len(), top_reps(stack@), top_used_up(stack@, blocks@),
    {
        let len = stack.len();
        if len == 0 {
            break;
        }
        let top = stack[len - 1];
        assert(stack@[len - 1].block < nb);
        let blen = blocks[top.block].len();
        if top.idx < blen {
            proof {
                assert(!spent(stack@[len - 1], blocks@));
                assert(settle(stack@, blocks@) == stack@);
            }
            break;
        }
        let ghost ghost_stack = stack@;
        proof {
            assert(ghost_stack.drop_last() =~= ghost_stack.subrange(0, len - 1));
        }
        match top.kind {
            FrameKind::Count { reps } => {
                if reps > 0 {
                    stack.set(len - 1, ExecFrame { block: top.block, idx: 0, kind: FrameKind::Count { reps: reps - 1 } });
                } else {
                    stack.pop();
                }
            },
            FrameKind::Unbounded => {
                if blen == 0 {
                    stack.pop();
                } else {
                    stack.set(len - 1, ExecFrame { block: top.block, idx: 0, kind: FrameKind::Unbounded });
                }
            },
            FrameKind::Once => {
                stack.pop();
            },
        }
        proof {
            let bs = blocks@;
            let before = ghost_stack;
            if stack@.len() < len {
                assert(stack@ =~= before.drop_last());
            } else {
                assert(stack@ =~= before.update(len - 1, stack@[len - 1]));
            }
            assert(settle(before, bs) == settle(stack@, bs));
            assert(before.drop_last() =~= before.subrange(0, len - 1));
            if stack@.len() < len {
                assert(stack@ =~= before.drop_last());
                assert(spent(before[len - 1], bs));
                assert(all_spent(before, bs) == all_spent(stack@, bs)) by {
                    if all_spent(stack@, bs) {
                        assert forall|i: int| 0 <= i < before.len() implies spent(#[trigger] before[i], bs) by {
                            if i < len - 1 {
                                assert(before[i] == stack@[i]);
                            }
                        }
                    }
                }
            } else {
                assert(stack@.drop_last() =~= before.drop_last());
                let nt = stack@[len - 1];
                assert(spent(before[len - 1], bs) == spent(nt, bs));
                assert(all_spent(before, bs) == all_spent(stack@, bs)) by {
                    if all_spent(stack@, bs) {
                        assert forall|i: int| 0 <= i < before.len() implies spent(#[trigger] before[i], bs) by {
                            if i < len - 1 {
                                assert(before[i] == stack@[i]);
                            }
                        }
                    }
                    if all_spent(before, bs) {
                        assert forall|i: int| 0 <= i < stack@.len() implies spent(#[trigger] stack@[i], bs) by {
                            if i < len - 1 {
                                assert(before[i] == stack@[i]);
                            }
                        }
                    }
                }
            }
        }
    }
}

impl Engine {
    /// Unwind finished frames: a counted loop with passes left starts its block again, an
    /// unbounded loop over a non-empty block starts over, anything else finished is dropped.
    fn unwind(&mut self)
        requires
            old(self).wf(),
            !old(self).m.done,
        ensures
            final(self).wf(),
            !final(self).m.done,
            final(self).program == old(self).program,
            final(self).m.seed == old(self).m.seed,
            final(self).m.env@ == old(self).m.env@,
            final(self).m.rng@ == old(self).m.rng@,
            final(self).m.turtles@ == old(self).m.turtles@,
            final(self).m.fbs@ == old(self).m.fbs@,
            final(self).m.active_fb == old(self).m.active_fb,
            all_spent(final(self).m.stack@, final(self).program.blocks@) == all_spent(old(self).m.stack@, old(self).program.blocks@),
            final(self).m.stack@ == settle(old(self).m.stack@, old(self).program.blocks@),
            final(self).m.stack@.len() > 0 ==> final(self).m.stack@.last().idx < final(self).program.blocks@[final(self).m.stack@.last().block as int]@.len(),
    {
        settle_frames(&mut self.m.stack, &self.program.blocks);
    }

    /// Execute exactly one statement and return its events — the unit of Step. Finished
    /// frames are unwound first (a counted loop starts its next pass, an unbounded one starts
    /// over); when nothing is left the program is done. An error halts execution on its line.
    pub fn step(&mut self) -> (r: Vec<Event>)
        requires
            old(self).wf(),
        ensures
            final(self).wf(),
            final(self).blocks() == old(self).blocks(),
            final(self).root() == old(self).root(),
            final(self).seed_value() == old(self).seed_value(),
            old(self).is_done() ==> r@.len() == 0 && *final(self) == *old(self),
            !old(self).is_done() ==> r@.len() >= 1,
            !old(self).is_done() ==> (r@ == seq![Event::Done] <==> all_spent(old(self).frames(), old(self).blocks())),
            !old(self).is_done() ==> r@ == seq![Event::Done] && final(self).frames().len() == 0 || r@[0] == Event::Line(
                line_of(next_stmt(old(self).frames(), old(self).blocks())),
            ),
            !old(self).is_done() ==> (final(self).is_done() <==> (r@.last() is Done || r@.last() is Error)),
            forall|k: int| 0 < k < r@.len() - 1 ==> (#[trigger] r@[k] is Draw || r@[k] is Audio),
            r@.len() > 0 ==> match r@.last() {
                Event::Error(e) => r@[0] == Event::Line(e.line),
                _ => true,
            },
            !old(self).is_done() && !all_spent(old(self).frames(), old(self).blocks()) ==> ({
                let st = settle(old(self).frames(), old(self).blocks());
                let top = st.last();
                let adv = st.update(st.len() - 1, ExecFrame { block: top.block, idx: (top.idx + 1) as usize, kind: top.kind });
                let fr = final(self).frames();
                match next_stmt(old(self).frames(), old(self).blocks()) {
                    Stmt::Simple { toks, .. } => fr == (if is_stop_line(toks@) { after_stop(adv) } else { adv }) && simple_done(
                        toks@,
                        old(self).env_map(),
                        final(self).env_map(),
                        old(self).turtles_view(),
                        final(self).turtles_view(),
                        old(self).buffers(),
                        final(self).buffers(),
                        old(self).active_buffer(),
                        old(self).rng_state(),
                        final(self).rng_state(),
                        line_events(r@, final(self).is_done()),
                        line_result(r@, final(self).is_done()),
                    ),
                    Stmt::Loop { unbounded, count, body, .. } => if unbounded {
                        fr == adv.push(ExecFrame { block: body, idx: 0, kind: FrameKind::Unbounded })
                    } else {
                        &&& !final(self).is_done() ==> fr == adv || (fr.drop_last() == adv && fr.last().block == body
                            && fr.last().idx == 0 && fr.last().kind is Count)
                        &&& count is None ==> !final(self).is_done() && fr == adv
                        &&& count is Some && plain_only(count->0@, old(self).env_map()) ==> match plain_value(
                            count->0@,
                            old(self).env_map(),
                        ) {
                            Some(Plain::Num(x)) => !final(self).is_done() && fr == after_loop_header(adv, body, pass_count(x)),
                            _ => final(self).is_done(),
                        }
                        &&& count is Some && arith_only(count->0@, old(self).env_map()) ==> (final(self).is_done() <==> arith_value(
                            count->0@,
                            old(self).env_map(),
                        ) is None) && (!final(self).is_done() ==> fr == after_loop_header(
                            adv,
                            body,
                            pass_count(arith_value(count->0@, old(self).env_map())->0),
                        ))
                    },
                    Stmt::If { lhs, relation, rhs, then_b, else_b, .. } => {
                        &&& !final(self).is_done() ==> fr == adv.push(ExecFrame { block: then_b, idx: 0, kind: FrameKind::Once })
                            || match else_b {
                            Some(e) => fr == adv.push(ExecFrame { block: e, idx: 0, kind: FrameKind::Once }),
                            None => fr == adv,
                        }
                        &&& arith_only(lhs@, old(self).env_map()) && arith_only(rhs@, old(self).env_map()) ==> (final(self).is_done()
                            <==> (arith_value(lhs@, old(self).env_map()) is None || arith_value(rhs@, old(self).env_map()) is None))
                            && (!final(self).is_done() ==> fr == after_if_header(
                            adv,
                            then_b,
                            else_b,
                            relation_holds(relation, arith_value(lhs@, old(self).env_map())->0, arith_value(rhs@, old(self).env_map())->0),
                        ))
                        &&& plain_only(lhs@, old(self).env_map()) && plain_only(rhs@, old(self).env_map()) ==> match (
                            plain_value(lhs@, old(self).env_map()),
                            plain_value(rhs@, old(self).env_map()),
                        ) {
                            (Some(Plain::Num(a)), Some(Plain::Num(b))) => !final(self).is_done() && fr == after_if_header(
                                adv,
                                then_b,
                                else_b,
                                relation_holds(relation, a, b),
                            ),
                            _ => final(self).is_done(),
                        }
                    },
                }
            }),
    {
        let mut out: Vec<Event> = Vec::new();
        if self.m.done {
            return out;
        }
        let ghost nb = self.program.blocks@.len();
        self.unwind();
        let len = self.m.stack.len();
        if len == 0 {
            self.m.done = true;
            out.push(Event::Done);
            proof {
                assert(out@ =~= seq![Event::Done]);
            }
            return out;
        }
        let top = self.m.stack[len - 1];
        assert(self.m.stack@[len - 1].block < nb);
        let blen = self.program.blocks[top.block].len();
        assert(top.idx < blen);
        self.m.stack.set(len - 1, ExecFrame { block: top.block, idx: top.idx + 1, kind: top.kind });
        let node = &self.program.blocks[top.block][top.idx];
        proof {
            assert(stmt_refs_below(self.program.blocks@[top.block as int]@[top.idx as int], nb));
        }
        let line = node.line();
        out.push(Event::Line(line));
        let ghost before = out@;
        let res = self.m.exec_node(node, Ghost(nb), &mut out);
        let ghost ran = out@;
        if let Err(e) = res {
            out.push(Event::Error(e));
            self.m.done = true;
        }
        proof {
            assert(line_events(out@, self.m.done) =~= ran.subrange(before.len() as int, ran.len() as int));
            assert(line_result(out@, self.m.done) == failure(res));
            assert(out@[0] == before[0]);
            assert forall|k: int| 0 < k < out@.len() - 1 implies (#[trigger] out@[k] is Draw || out@[k] is Audio) by {
                assert(out@[k] == out@.subrange(0, out@.len() as int)[k]);
                if k >= before.len() {
                } else {
                    assert(k == 0 || k < before.len());
                }
            }
        }
        out
    }

    /// Live per-line execution (the Enter gesture): run one line against the live state, as
    /// Step would. A loop or `als` header cannot run this way.
    pub fn run_line(&mut self, src: &str, line: u32) -> (r: Vec<Event>)
        requires
            old(self).wf(),
        ensures
            final(self).wf(),
            final(self).blocks() == old(self).blocks(),
            final(self).root() == old(self).root(),
            final(self).seed_value() == old(self).seed_value(),
            final(self).is_done() == old(self).is_done(),
            forall|k: int| 0 <= k < r@.len() - 1 ==> (#[trigger] r@[k] is Draw || r@[k] is Audio),
            r@.len() > 0 ==> match r@.last() {
                Event::Error(e) => e.line == line,
                other => other is Draw || other is Audio,
            },
            exists|ts: Seq<Token>| #[trigger] lexed(src@, ts) && {
                let toks = unbracketed(ts);
                let halted = r@.len() > 0 && r@.last() is Error;
                if toks.len() == 0 {
                    &&& r@.len() == 0
                    &&& *final(self) == *old(self)
                } else if toks[0].kind is Loop || toks[0].kind == Tok::If {
                    &&& r@.len() == 1
                    &&& r@[0] matches Event::Error(e) && e.kind == ErrorKind::LoopViaEnter
                    &&& *final(self) == *old(self)
                } else {
                    &&& final(self).frames() == if is_stop_line(toks) { after_stop(old(self).frames()) } else { old(self).frames() }
                    &&& simple_done(
                        toks,
                        old(self).env_map(),
                        final(self).env_map(),
                        old(self).turtles_view(),
                        final(self).turtles_view(),
                        old(self).buffers(),
                        final(self).buffers(),
                        old(self).active_buffer(),
                        old(self).rng_state(),
                        final(self).rng_state(),
                        if halted { r@.drop_last() } else { r@ },
                        if halted { Some(r@.last()->Error_0) } else { None },
                    )
                }
            },
    {
        let mut out: Vec<Event> = Vec::new();
        let raw = tokenize(src);
        let toks = without_brackets(raw.as_slice());
        proof {
            assert(lexed(src@, raw@));
        }
        if toks.len() == 0 {
            return out;
        }
        if matches!(toks[0].kind, Tok::Loop(_) | Tok::If) {
            out.push(Event::Error(err(line, ErrorKind::LoopViaEnter)));
            return out;
        }
        let cs = str_chars(src);
        let trimmed = trim_chars(cs.as_slice());
        let text = chars_to_string(trimmed.as_slice());
        let ghost nb = self.program.blocks@.len();
        let res = self.m.exec_simple(toks.as_slice(), line, text.as_str(), &mut out);
        proof {
            assert forall|i: int| 0 <= i < self.m.stack@.len() implies (#[trigger] self.m.stack@[i]).block < nb by {
                assert(self.m.stack@[i] == old(self).m.stack@.subrange(0, self.m.stack@.len() as int)[i]);
            }
        }
        let ghost ran = out@;
        if let Err(e) = res {
            out.push(Event::Error(e));
        }
        proof {
            assert(ran.subrange(0, ran.len() as int) =~= ran);
            if res is Err {
                assert(out@.drop_last() =~= ran);
            } else if out@.len() > 0 {
                assert(out@.last() is Draw || out@.last() is Audio);
            }
            let halted = out@.len() > 0 && out@.last() is Error;
            assert(halted == res is Err);
            assert((if halted { out@.drop_last() } else { out@ }) == ran);
            assert((if halted { Some(out@.last()->Error_0) } else { None }) == failure(res));
        }
        out
    }
}

impl Default for Engine {
    fn default() -> (e: Engine)
        ensures
            e.wf(),
            e.is_done(),
            e.root_len() == 0,
            e.seed_value() == DEFAULT_SEED,
            e.at_start(),
    {
        Engine::new()
    }
}

/// A program in which no line holds a token (blank lines, or lines of brackets only) has nothing
/// to run: right after loading it the engine is done. `m` is how `load` read the lines.
pub proof fn law_blank_program_is_done(e: Engine, src: Seq<char>, m: Seq<LineView>)
    requires
        e.at_start(),
        lines_fit(src, m),
        block(e.blocks(), m, 0, 0, e.blocks()[e.root() as int]@) == Some(m.len() as int),
        forall|k: int| 0 <= k < m.len() ==> (#[trigger] m[k]).1.len() == 0,
    ensures
        e.is_done(),
{
    crate::program::lemma_first_nonblank(m, 0);
    if e.root_len() > 0 {
        assert(crate::program::first_nonblank(m, 0) >= m.len());
        assert(crate::program::consume(e.blocks(), m, 0, 0, e.blocks()[e.root() as int]@) is None);
    }
}

/// A program in which some line holds a token has something to run: right after loading it the
/// engine is not done. `m` is how `load` read the lines.
pub proof fn law_program_with_tokens_is_not_done(e: Engine, src: Seq<char>, m: Seq<LineView>, k: int)
    requires
        e.at_start(),
        lines_fit(src, m),
        block(e.blocks(), m, 0, 0, e.blocks()[e.root() as int]@) == Some(m.len() as int),
        0 <= k < m.len(),
        m[k].1.len() > 0,
    ensures
        !e.is_done(),
{
    crate::program::lemma_first_nonblank(m, 0);
    if e.root_len() == 0 {
        assert(crate::program::consume(e.blocks(), m, 0, 0, e.blocks()[e.root() as int]@) == Some(0int));
        assert(crate::program::first_nonblank(m, 0) < m.len());
    }
}

/// Replay starts exactly where the first run started: two engines at the start of the same
/// program, with the same seed and the same buffers, are in the same state.
pub proof fn law_start_is_determined(a: Engine, b: Engine)
    requires
        a.at_start(),
        b.at_start(),
        a.blocks() == b.blocks(),
        a.root() == b.root(),
        a.seed_value() == b.seed_value(),
        a.buffers() == b.buffers(),
    ensures
        a.env_map() == b.env_map(),
        a.turtles_view() == b.turtles_view(),
        a.rng_state() == b.rng_state(),
        a.frames() == b.frames(),
        a.is_done() == b.is_done(),
        a.active_buffer() == b.active_buffer(),
{
    assert(a.turtles_view() =~= b.turtles_view());
}

} // verus!
