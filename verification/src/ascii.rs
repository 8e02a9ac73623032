//! A terminal view of a run: the plotted pixels of an event trace on a boolean canvas, and that
//! canvas downsampled to at most 80 columns of `#` and space.

use vstd::prelude::*;

use crate::command::{DrawOp, Event};
use crate::text::chars_to_string;

verus! {

/// The canvas (`w × h`, row-major) after drawing `events`: a plot inside the canvas lights its
/// pixel, a clear darkens all.
pub open spec fn canvas_after(events: Seq<Event>, w: nat, h: nat) -> Seq<bool>
    decreases events.len(),
{
    if events.len() == 0 {
        Seq::new(w * h, |i: int| false)
    } else {
        let c = canvas_after(events.drop_last(), w, h);
        match events.last() {
            Event::Draw(DrawOp::Plot { x, y, .. }) => if (x as nat) < w && (y as nat) < h {
                c.update(y * w + x, true)
            } else {
                c
            },
            Event::Draw(DrawOp::Clear { .. }) => Seq::new(w * h, |i: int| false),
            _ => c,
        }
    }
}

proof fn lemma_canvas_len(events: Seq<Event>, w: nat, h: nat)
    ensures
        canvas_after(events, w, h).len() == w * h,
    decreases events.len(),
{
    if events.len() > 0 {
        lemma_canvas_len(events.drop_last(), w, h);
        let c = canvas_after(events.drop_last(), w, h);
        match events.last() {
            Event::Draw(DrawOp::Plot { x, y, .. }) => {
                if (x as nat) < w && (y as nat) < h {
                    let (xi, yi, wi, hi) = (x as int, y as int, w as int, h as int);
                    assert(yi * wi + xi < wi * hi) by (nonlinear_arith)
                        requires
                            0 <= xi < wi,
                            0 <= yi < hi,
                    ;
                    assert(c.update(y * w + x, true).len() == c.len());
                }
            },
            _ => {},
        }
    }
}

fn dark(n: usize) -> (c: Vec<bool>)
    ensures
        c@ == Seq::new(n as nat, |i: int| false),
{
    let mut c: Vec<bool> = Vec::new();
    let mut i: usize = 0;
    while i < n
        invariant
            i <= n,
            c@ == Seq::new(i as nat, |k: int| false),
        decreases n - i,
    {
        c.push(false);
        i += 1;
        assert(c@ =~= Seq::new(i as nat, |k: int| false));
    }
    c
}

/// Draw an event trace onto a `w × h` canvas.
pub fn draw_canvas(events: &[Event], w: usize, h: usize) -> (c: Vec<bool>)
    requires
        w * h <= usize::MAX,
    ensures
        c@ == canvas_after(events@, w as nat, h as nat),
{
    let n = w * h;
    let mut c = dark(n);
    let mut i: usize = 0;
    while i < events.len()
        invariant
            i <= events@.len(),
            n == w * h,
            c@ == canvas_after(events@.subrange(0, i as int), w as nat, h as nat),
        decreases events@.len() - i,
    {
        proof {
            let sub = events@.subrange(0, i + 1);
            assert(sub.drop_last() =~= events@.subrange(0, i as int));
            lemma_canvas_len(events@.subrange(0, i as int), w as nat, h as nat);
        }
        match &events[i] {
            Event::Draw(DrawOp::Plot { x, y, .. }) => {
                let (px, py) = (*x as usize, *y as usize);
                if px < w && py < h {
                    assert(py * w + px < w * h) by (nonlinear_arith)
                        requires
                            px < w,
                            py < h,
                    ;
                    c.set(py * w + px, true);
                }
            },
            Event::Draw(DrawOp::Clear { .. }) => {
                c = dark(n);
            },
            _ => {},
        }
        i += 1;
    }
    assert(events@.subrange(0, events@.len() as int) =~= events@);
    c
}

/// How many events are plots.
pub open spec fn plot_count(events: Seq<Event>) -> nat
    decreases events.len(),
{
    if events.len() == 0 {
        0
    } else {
        plot_count(events.drop_last()) + if events.last() matches Event::Draw(DrawOp::Plot { .. }) { 1nat } else { 0nat }
    }
}

/// How many events are sound.
pub open spec fn audio_count(events: Seq<Event>) -> nat
    decreases events.len(),
{
    if events.len() == 0 {
        0
    } else {
        audio_count(events.drop_last()) + if events.last() is Audio { 1nat } else { 0nat }
    }
}

/// The numbers of plots and of sound events in a trace.
pub fn count_output(events: &[Event]) -> (r: (usize, usize))
    ensures
        r.0 == plot_count(events@),
        r.1 == audio_count(events@),
{
    let mut plots: usize = 0;
    let mut audio: usize = 0;
    let mut i: usize = 0;
    while i < events.len()
        invariant
            i <= events@.len(),
            plots == plot_count(events@.subrange(0, i as int)),
            audio == audio_count(events@.subrange(0, i as int)),
            plots + audio <= i,
        decreases events@.len() - i,
    {
        proof {
            let sub = events@.subrange(0, i + 1);
            assert(sub.drop_last() =~= events@.subrange(0, i as int));
        }
        match &events[i] {
            Event::Draw(DrawOp::Plot { .. }) => plots += 1,
            Event::Audio(_) => audio += 1,
            _ => {},
        }
        i += 1;
    }
    assert(events@.subrange(0, events@.len() as int) =~= events@);
    (plots, audio)
}

/// The index of the last error in a trace.
pub fn last_error(events: &[Event]) -> (r: Option<usize>)
    ensures
        match r {
            Some(k) => k < events@.len() && events@[k as int] is Error && forall|j: int|
                k < j < events@.len() ==> !(#[trigger] events@[j] is Error),
            None => forall|j: int| 0 <= j < events@.len() ==> !(#[trigger] events@[j] is Error),
        },
{
    let mut k = events.len();
    while k > 0
        invariant
            k <= events@.len(),
            forall|j: int| k <= j < events@.len() ==> !(#[trigger] events@[j] is Error),
        decreases k,
    {
        k -= 1;
        if let Event::Error(_) = &events[k] {
            return Some(k);
        }
    }
    None
}

/// Is any pixel of the `sx × sy` block at `(x, y)` lit?
pub open spec fn block_lit(canvas: Seq<bool>, w: int, h: int, x: int, y: int, sx: int, sy: int) -> bool {
    exists|dx: int, dy: int|
        0 <= dx < sx && 0 <= dy < sy && x + dx < w && y + dy < h && #[trigger] canvas[(y + dy) * w + (x + dx)]
}

/// The horizontal downsampling step: the canvas is shown at most 80 characters wide.
pub open spec fn step_x(w: int) -> int {
    let tw = if w < 80 { w } else { 80 };
    (w + tw - 1) / tw
}

/// One text row: a character per block column, `#` where the block is lit.
pub open spec fn ascii_row(canvas: Seq<bool>, w: int, h: int, y: int, sx: int, sy: int) -> Seq<char> {
    Seq::new(
        ((w + sx - 1) / sx) as nat,
        |j: int| if block_lit(canvas, w, h, j * sx, y, sx, sy) { '#' } else { ' ' },
    )
}

/// `s` without its trailing spaces.
pub open spec fn trim_spaces_end(s: Seq<char>) -> Seq<char>
    decreases s.len(),
{
    if s.len() > 0 && s.last() == ' ' { trim_spaces_end(s.drop_last()) } else { s }
}

/// The ASCII view: rows every `2·sx` pixel rows (characters are about twice as tall as wide).
pub open spec fn ascii_lines(canvas: Seq<bool>, w: int, h: int) -> Seq<Seq<char>> {
    let sx = step_x(w);
    let sy = 2 * sx;
    Seq::new(((h + sy - 1) / sy) as nat, |r: int| trim_spaces_end(ascii_row(canvas, w, h, r * sy, sx, sy)))
}

proof fn lemma_ceil_count(w: int, s: int, j: int)
    requires
        s >= 1,
        j >= 0,
        w >= 0,
    ensures
        (j * s < w) <==> (j < (w + s - 1) / s),
{
    let a = w + s - 1;
    let q = a / s;
    vstd::arithmetic::div_mod::lemma_fundamental_div_mod(a, s);
    vstd::arithmetic::div_mod::lemma_mod_pos_bound(a, s);
    assert((j * s < w) <==> (j < q)) by (nonlinear_arith)
        requires
            a == s * q + (a % s),
            0 <= a % s < s,
            a == w + s - 1,
            s >= 1,
            j >= 0,
    ;
}

fn block_on(canvas: &Vec<bool>, w: usize, h: usize, x: usize, y: usize, sx: usize, sy: usize) -> (b: bool)
    requires
        canvas@.len() == w * h,
        x < w,
        y < h,
        1 <= sx,
        sy == 2 * sx,
        sx <= w,
        w * h <= usize::MAX,
        h + 2 * w <= usize::MAX,
    ensures
        b == block_lit(canvas@, w as int, h as int, x as int, y as int, sx as int, sy as int),
{
    let mut dy: usize = 0;
    while dy < sy
        invariant
            dy <= sy,
            canvas@.len() == w * h,
            x < w,
            y < h,
            w * h <= usize::MAX,
            h + 2 * w <= usize::MAX,
            sy == 2 * sx,
            sx <= w,
            forall|ddx: int, ddy: int|
                0 <= ddx < sx && 0 <= ddy < dy && x + ddx < w && y + ddy < h ==> !#[trigger] canvas@[(y + ddy) * w + (x + ddx)],
        decreases sy - dy,
    {
        let mut dx: usize = 0;
        while dx < sx
            invariant
                dx <= sx,
                dy < sy,
                canvas@.len() == w * h,
                x < w,
                y < h,
                w * h <= usize::MAX,
                h + 2 * w <= usize::MAX,
                sy == 2 * sx,
                sx <= w,
                forall|ddx: int, ddy: int|
                    0 <= ddx < sx && 0 <= ddy < dy && x + ddx < w && y + ddy < h ==> !#[trigger] canvas@[(y + ddy) * w + (x + ddx)],
                forall|ddx: int|
                    0 <= ddx < dx && x + ddx < w && y + dy < h ==> !#[trigger] canvas@[(y + dy) * w + (x + ddx)],
            decreases sx - dx,
        {
            if x + dx < w && y + dy < h {
                let px = x + dx;
                let py = y + dy;
                assert(py * w + px < w * h) by (nonlinear_arith)
                    requires
                        px < w,
                        py < h,
                ;
                if canvas[py * w + px] {
                    assert(canvas@[(y + dy) * w + (x + dx)]);
                    return true;
                }
            }
            dx += 1;
        }
        dy += 1;
    }
    false
}

/// The canvas downsampled to at most 80 columns, one string per text row, trailing spaces
/// trimmed.
pub fn render_ascii(canvas: &Vec<bool>, w: usize, h: usize) -> (lines: Vec<String>)
    requires
        w > 0,
        canvas@.len() == w * h,
        w * h <= usize::MAX,
        h + 2 * w <= usize::MAX,
    ensures
        lines@.len() == ascii_lines(canvas@, w as int, h as int).len(),
        forall|r: int| 0 <= r < lines@.len() ==> (#[trigger] lines@[r])@ == ascii_lines(canvas@, w as int, h as int)[r],
{
    let target_w: usize = if w < 80 { w } else { 80 };
    let sx = (w + target_w - 1) / target_w;
    proof {
        vstd::arithmetic::div_mod::lemma_div_is_ordered(target_w as int, (w + target_w - 1) as int, target_w as int);
        vstd::arithmetic::div_mod::lemma_div_by_self(target_w as int);
        vstd::arithmetic::div_mod::lemma_div_is_ordered_by_denominator((w + target_w - 1) as int, 1, target_w as int);
        assert((w + target_w - 1) as int / 1 == (w + target_w - 1) as int);
    }
    assert(1 <= sx <= w + target_w - 1);
    assert(sx <= w) by {
        if target_w == w {
            vstd::arithmetic::div_mod::lemma_div_is_ordered((w + w - 1) as int, (2 * w) as int, w as int);
            vstd::arithmetic::div_mod::lemma_div_multiples_vanish(2, w as int);
            assert(w as int * 2 == 2 * w as int);
        } else {
            vstd::arithmetic::div_mod::lemma_div_is_ordered((w + 79) as int, (80 * w) as int, 80);
            vstd::arithmetic::div_mod::lemma_div_multiples_vanish(w as int, 80);
        }
    }
    let sy = sx * 2;
    let ghost all = ascii_lines(canvas@, w as int, h as int);
    proof {
        lemma_ceil_count(h as int, sy as int, 0);
    }
    let mut lines: Vec<String> = Vec::new();
    let mut y: usize = 0;
    let mut r: usize = 0;
    while y < h
        invariant
            canvas@.len() == w * h,
            w * h <= usize::MAX,
            h + 2 * w <= usize::MAX,
            1 <= sx <= w,
            sx == step_x(w as int),
            sy == 2 * sx,
            y == r * sy,
            all == ascii_lines(canvas@, w as int, h as int),
            r <= all.len(),
            all.len() == (h + sy - 1) as int / sy as int,
            y < h ==> r < all.len(),
            y >= h ==> r == all.len(),
            lines@.len() == r,
            forall|k: int| 0 <= k < r ==> (#[trigger] lines@[k])@ == all[k],
        decreases all.len() - r,
    {
        let mut line: Vec<char> = Vec::new();
        let mut x: usize = 0;
        let mut j: usize = 0;
        let ghost row = ascii_row(canvas@, w as int, h as int, y as int, sx as int, sy as int);
        proof {
            lemma_ceil_count(w as int, sx as int, 0);
        }
        while x < w
            invariant
                canvas@.len() == w * h,
                w * h <= usize::MAX,
                h + 2 * w <= usize::MAX,
                1 <= sx <= w,
                sy == 2 * sx,
                y < h,
                j <= row.len(),
                x == j * sx,
                row == ascii_row(canvas@, w as int, h as int, y as int, sx as int, sy as int),
                x < w ==> j < row.len(),
                x >= w ==> j == row.len(),
                line@ == row.subrange(0, j as int),
            decreases row.len() - j,
        {
            let on = block_on(canvas, w, h, x, y, sx, sy);
            line.push(if on { '#' } else { ' ' });
            proof {
                assert(line@ =~= row.subrange(0, j + 1));
            }
            proof {
                assert((j + 1) * sx == j * sx + sx) by (nonlinear_arith);
            }
            x += sx;
            j += 1;
            proof {
                lemma_ceil_count(w as int, sx as int, j as int);
                lemma_ceil_count(w as int, sx as int, (j - 1) as int);
            }
        }
        proof {
            assert(row.subrange(0, row.len() as int) =~= row);
        }
        let mut n = line.len();
        while n > 0 && line[n - 1] == ' '
            invariant
                n <= line@.len(),
                trim_spaces_end(line@.subrange(0, n as int)) == trim_spaces_end(line@),
            decreases n,
        {
            proof {
                assert(line@.subrange(0, n as int).drop_last() =~= line@.subrange(0, n - 1));
            }
            n -= 1;
        }
        let t = crate::text::copy_range(line.as_slice(), 0, n);
        proof {
            assert(trim_spaces_end(line@.subrange(0, n as int)) == line@.subrange(0, n as int));
        }
        lines.push(chars_to_string(t.as_slice()));
        proof {
            assert((r + 1) * sy == r * sy + sy) by (nonlinear_arith);
        }
        y += sy;
        r += 1;
        proof {
            lemma_ceil_count(h as int, sy as int, r as int);
            lemma_ceil_count(h as int, sy as int, (r - 1) as int);
        }
    }
    lines
}

} // verus!
