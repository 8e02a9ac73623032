//! Compilation: source text → a statement tree whose blocks are delimited by indentation.
//! Blocks live in one table and refer to each other by index; the top level is `root`.

use vstd::prelude::*;

use crate::lexer::{lexed, tokenize_chars, Cmp, LoopWord, Tok, Token};
use crate::text::{chars_to_string, copy_range, str_chars, trim_bounds, trim_chars};

verus! {

pub enum Stmt {
    Simple { line: u32, toks: Vec<Token>, src: String },
    /// `herhaal n`, `doe n keer` (counted) or a bare `doe` (unbounded); `body` is a block index.
    Loop { line: u32, unbounded: bool, count: Option<Vec<Token>>, body: usize },
    /// `als lhs <vergelijk> rhs` with an optional `anders` block.
    If { line: u32, lhs: Vec<Token>, relation: Cmp, rhs: Vec<Token>, then_b: usize, else_b: Option<usize> },
}

pub open spec fn line_of(s: Stmt) -> u32 {
    match s {
        Stmt::Simple { line, .. } => line,
        Stmt::Loop { line, .. } => line,
        Stmt::If { line, .. } => line,
    }
}

impl Stmt {
    pub fn line(&self) -> (r: u32)
        ensures
            r == line_of(*self),
    {
        match self {
            Stmt::Simple { line, .. } => *line,
            Stmt::Loop { line, .. } => *line,
            Stmt::If { line, .. } => *line,
        }
    }
}

/// Every block a statement refers to exists among `n` blocks.
pub open spec fn stmt_refs_below(s: Stmt, n: nat) -> bool {
    match s {
        Stmt::Simple { .. } => true,
        Stmt::Loop { body, .. } => body < n,
        Stmt::If { then_b, else_b, .. } => then_b < n && match else_b {
            Some(e) => e < n,
            None => true,
        },
    }
}

pub open spec fn blocks_ok(bs: Seq<Vec<Stmt>>) -> bool {
    forall|b: int, i: int| 0 <= b < bs.len() && 0 <= i < bs[b]@.len() ==> stmt_refs_below(#[trigger] bs[b]@[i], bs.len())
}

pub struct Program {
    pub blocks: Vec<Vec<Stmt>>,
    pub root: usize,
}

impl Program {
    pub open spec fn wf(&self) -> bool {
        &&& blocks_ok(self.blocks@)
        &&& self.root < self.blocks@.len()
    }

    /// The program with no statements.
    pub fn empty() -> (p: Program)
        ensures
            p.wf(),
            p.blocks@[p.root as int]@.len() == 0,
    {
        let mut blocks: Vec<Vec<Stmt>> = Vec::new();
        blocks.push(Vec::new());
        Program { blocks, root: 0 }
    }
}

/// A source line as the block parser sees it: its indentation, its tokens (brackets left
/// out), its trimmed text and its line number.
pub type LineView = (int, Seq<Token>, Seq<char>, u32);

/// The position of the first `\n` at or after `from` (the length when there is none).
pub open spec fn next_newline(cs: Seq<char>, from: int) -> int
    decreases cs.len() - from,
{
    if from < 0 || from >= cs.len() {
        cs.len() as int
    } else if cs[from] == '\n' {
        from
    } else {
        next_newline(cs, from + 1)
    }
}

pub proof fn lemma_next_newline(cs: Seq<char>, from: int)
    requires
        0 <= from <= cs.len(),
    ensures
        from <= next_newline(cs, from) <= cs.len(),
        next_newline(cs, from) < cs.len() ==> cs[next_newline(cs, from)] == '\n',
        forall|k: int| from <= k < next_newline(cs, from) ==> cs[k] != '\n',
    decreases cs.len() - from,
{
    if from < cs.len() && cs[from] != '\n' {
        lemma_next_newline(cs, from + 1);
    }
}

/// The lines of `cs` from position `from` on, split at every `\n`.
pub open spec fn text_lines_from(cs: Seq<char>, from: int) -> Seq<Seq<char>>
    decreases cs.len() - from,
{
    if from < 0 || from > cs.len() {
        Seq::empty()
    } else {
        let e = next_newline(cs, from);
        proof {
            lemma_next_newline(cs, from);
        }
        if e >= cs.len() {
            seq![cs.subrange(from, cs.len() as int)]
        } else {
            seq![cs.subrange(from, e)].add(text_lines_from(cs, e + 1))
        }
    }
}

/// The lines of a source text, split at every `\n`: `n` newlines give `n + 1` lines.
pub open spec fn text_lines(cs: Seq<char>) -> Seq<Seq<char>> {
    text_lines_from(cs, 0)
}

/// The number of blanks (spaces and tabs) a line starts with.
pub open spec fn lead_blanks(l: Seq<char>) -> int
    decreases l.len(),
{
    if l.len() > 0 && (l[0] == ' ' || l[0] == '\t') {
        1 + lead_blanks(l.drop_first())
    } else {
        0
    }
}

/// `v` is what the parser reads of line `k` with text `text`.
pub open spec fn line_fits(text: Seq<char>, k: int, v: LineView) -> bool {
    &&& v.0 == lead_blanks(text)
    &&& exists|raw: Seq<Token>| #[trigger] lexed(text, raw) && v.1 == unbracketed(raw)
    &&& exists|a: int, b: int| #[trigger] trim_bounds(text, a, b) && v.2 == text.subrange(a, b)
    &&& v.3 == ((k + 1) % 0x1_0000_0000) as u32
}

/// `m` is what the parser reads of the lines of `cs`, one view per line.
pub open spec fn lines_fit(cs: Seq<char>, m: Seq<LineView>) -> bool {
    &&& m.len() == text_lines(cs).len()
    &&& forall|k: int| 0 <= k < m.len() ==> line_fits(text_lines(cs)[k], k, #[trigger] m[k])
}

/// The first line at or after `p` that holds a token (the number of lines when none does).
pub open spec fn first_nonblank(m: Seq<LineView>, p: int) -> int
    decreases m.len() - p,
{
    if p < 0 || p >= m.len() {
        m.len() as int
    } else if m[p].1.len() > 0 {
        p
    } else {
        first_nonblank(m, p + 1)
    }
}

/// One deeper than indentation `d`.
pub open spec fn deeper(d: int) -> int {
    if d < usize::MAX { d + 1 } else { d }
}

/// The indentation of a block that starts at line `p`: that of its first line that holds a
/// token, at least 1 and at most `fallback` unless that line is indented further; `fallback`
/// when no such line follows.
pub open spec fn child_indent(m: Seq<LineView>, p: int, fallback: int) -> int {
    let q = first_nonblank(m, p);
    if 0 <= q < m.len() {
        let ind = m[q].0;
        let lo = imax(ind, 1);
        let hi = imax(fallback, ind);
        if lo < hi { lo } else { hi }
    } else {
        fallback
    }
}

/// Reading the statements `ss` in order from line `p`, each on the next line that holds a
/// token, which must be indented at least `min`: the line after the last one read, or none
/// when `ss` does not match the lines.
pub open spec fn consume(bs: Seq<Vec<Stmt>>, m: Seq<LineView>, p: int, min: int, ss: Seq<Stmt>) -> Option<int>
    decreases m.len() - p, ss.len(),
{
    if ss.len() == 0 {
        Some(p)
    } else {
        let q = first_nonblank(m, p);
        if p < 0 || q < p || q >= m.len() || m[q].0 < min {
            None
        } else {
            match head_stmt(bs, m, q, ss[0]) {
                Some(e) => if q < e <= m.len() { consume(bs, m, e, min, ss.drop_first()) } else { None },
                None => None,
            }
        }
    }
}

/// The statement headed by line `q`, read with the blocks `bs`: the line after it (and after
/// its blocks), or none when `s` is not that statement. A `herhaal`/`doe` line is a loop over
/// the block below it; an `als` line a test with the block below it and, when the next line
/// holding a token is an `anders` at the same indentation, the block below that; any other
/// line is a plain statement of its tokens and its trimmed text.
pub open spec fn head_stmt(bs: Seq<Vec<Stmt>>, m: Seq<LineView>, q: int, s: Stmt) -> Option<int>
    decreases m.len() - q, 0int,
{
    if q < 0 || q >= m.len() || m[q].1.len() == 0 {
        None
    } else {
        let l = m[q];
        let h = l.1;
        match h[0].kind {
            Tok::Loop(_) => match s {
                Stmt::Loop { line, unbounded, count, body } => if line == l.3 && (unbounded, opt_toks(count)) == loop_shape(h)
                    && body < bs.len() {
                    block(bs, m, q + 1, child_indent(m, q + 1, deeper(l.0)), bs[body as int]@)
                } else {
                    None
                },
                _ => None,
            },
            Tok::If => match s {
                Stmt::If { line, lhs, relation, rhs, then_b, else_b } => if line == l.3 && (lhs@, relation, rhs@) == if_shape(h)
                    && then_b < bs.len() {
                    match block(bs, m, q + 1, child_indent(m, q + 1, deeper(l.0)), bs[then_b as int]@) {
                        Some(e) => if q < e <= m.len() {
                            let f = first_nonblank(m, e);
                            if e <= f < m.len() && m[f].0 == l.0 && m[f].1[0].kind is Else {
                                match else_b {
                                    Some(eb) => if eb < bs.len() {
                                        block(bs, m, f + 1, child_indent(m, f + 1, deeper(m[f].0)), bs[eb as int]@)
                                    } else {
                                        None
                                    },
                                    None => None,
                                }
                            } else if else_b is None {
                                Some(e)
                            } else {
                                None
                            }
                        } else {
                            None
                        },
                        None => None,
                    }
                } else {
                    None
                },
                _ => None,
            },
            _ => match s {
                Stmt::Simple { line, toks, src } => if line == l.3 && toks@ == h && src@ == l.2 { Some(q + 1) } else { None },
                _ => None,
            },
        }
    }
}

/// `ss` is the whole block at indentation `min` that starts at line `p`: its statements read
/// from there, after which the next line holding a token is indented less than `min` (or none
/// is left). The result is that line.
pub open spec fn block(bs: Seq<Vec<Stmt>>, m: Seq<LineView>, p: int, min: int, ss: Seq<Stmt>) -> Option<int>
    decreases m.len() - p, ss.len() + 1,
{
    if p < 0 || p > m.len() {
        None
    } else {
        match consume(bs, m, p, min, ss) {
            Some(e) => {
                let f = first_nonblank(m, e);
                if f >= m.len() || m[f].0 < min { Some(f) } else { None }
            },
            None => None,
        }
    }
}

pub proof fn lemma_first_nonblank(m: Seq<LineView>, p: int)
    requires
        0 <= p <= m.len(),
    ensures
        p <= first_nonblank(m, p) <= m.len(),
        first_nonblank(m, p) < m.len() ==> m[first_nonblank(m, p)].1.len() > 0,
        forall|k: int| p <= k < first_nonblank(m, p) ==> (#[trigger] m[k]).1.len() == 0,
    decreases m.len() - p,
{
    if p < m.len() && m[p].1.len() == 0 {
        lemma_first_nonblank(m, p + 1);
    }
}

proof fn lemma_first_nonblank_skip(m: Seq<LineView>, e: int, p: int)
    requires
        0 <= e <= p <= m.len(),
        forall|k: int| e <= k < p ==> (#[trigger] m[k]).1.len() == 0,
    ensures
        first_nonblank(m, e) == first_nonblank(m, p),
    decreases p - e,
{
    if e < p {
        lemma_first_nonblank_skip(m, e + 1, p);
    }
}

proof fn lemma_consume_bounds(bs: Seq<Vec<Stmt>>, m: Seq<LineView>, p: int, min: int, ss: Seq<Stmt>)
    requires
        0 <= p <= m.len(),
        consume(bs, m, p, min, ss) is Some,
    ensures
        p <= consume(bs, m, p, min, ss)->0 <= m.len(),
    decreases ss.len(),
{
    if ss.len() > 0 {
        let q = first_nonblank(m, p);
        let e = head_stmt(bs, m, q, ss[0])->0;
        lemma_consume_bounds(bs, m, e, min, ss.drop_first());
    }
}

/// Reading one more statement after the ones read so far.
proof fn lemma_consume_push(bs: Seq<Vec<Stmt>>, m: Seq<LineView>, p0: int, min: int, ss: Seq<Stmt>, s: Stmt, e2: int)
    requires
        0 <= p0 <= m.len(),
        consume(bs, m, p0, min, ss) is Some,
        ({
            let e = consume(bs, m, p0, min, ss)->0;
            let q = first_nonblank(m, e);
            &&& q < m.len()
            &&& m[q].0 >= min
            &&& head_stmt(bs, m, q, s) == Some(e2)
            &&& q < e2 <= m.len()
        }),
    ensures
        consume(bs, m, p0, min, ss.push(s)) == Some(e2),
    decreases ss.len(),
{
    lemma_consume_bounds(bs, m, p0, min, ss);
    lemma_first_nonblank(m, consume(bs, m, p0, min, ss)->0);
    if ss.len() == 0 {
        assert(ss.push(s).drop_first() =~= Seq::<Stmt>::empty());
        assert(ss.push(s)[0] == s);
        assert(consume(bs, m, e2, min, Seq::<Stmt>::empty()) == Some(e2));
    } else {
        let q = first_nonblank(m, p0);
        lemma_first_nonblank(m, p0);
        let e1 = head_stmt(bs, m, q, ss[0])->0;
        assert(ss.push(s).drop_first() =~= ss.drop_first().push(s));
        assert(ss.push(s)[0] == ss[0]);
        lemma_consume_push(bs, m, e1, min, ss.drop_first(), s, e2);
    }
}

/// `bs2` keeps every block of `bs` and may add more.
pub open spec fn extends(bs: Seq<Vec<Stmt>>, bs2: Seq<Vec<Stmt>>) -> bool {
    &&& bs.len() <= bs2.len()
    &&& forall|i: int| 0 <= i < bs.len() ==> #[trigger] bs2[i] == bs[i]
}

proof fn lemma_consume_grow(bs: Seq<Vec<Stmt>>, bs2: Seq<Vec<Stmt>>, m: Seq<LineView>, p: int, min: int, ss: Seq<Stmt>)
    requires
        extends(bs, bs2),
        consume(bs, m, p, min, ss) is Some,
    ensures
        consume(bs2, m, p, min, ss) == consume(bs, m, p, min, ss),
    decreases m.len() - p, ss.len(),
{
    if ss.len() > 0 {
        let q = first_nonblank(m, p);
        lemma_head_grow(bs, bs2, m, q, ss[0]);
        let e = head_stmt(bs, m, q, ss[0])->0;
        lemma_consume_grow(bs, bs2, m, e, min, ss.drop_first());
    }
}

proof fn lemma_head_grow(bs: Seq<Vec<Stmt>>, bs2: Seq<Vec<Stmt>>, m: Seq<LineView>, q: int, s: Stmt)
    requires
        extends(bs, bs2),
        head_stmt(bs, m, q, s) is Some,
    ensures
        head_stmt(bs2, m, q, s) == head_stmt(bs, m, q, s),
    decreases m.len() - q, 0int,
{
    let l = m[q];
    let h = l.1;
    match h[0].kind {
        Tok::Loop(_) => match s {
            Stmt::Loop { body, .. } => {
                assert(bs2[body as int] == bs[body as int]);
                lemma_block_grow(bs, bs2, m, q + 1, child_indent(m, q + 1, deeper(l.0)), bs[body as int]@);
            },
            _ => {},
        },
        Tok::If => match s {
            Stmt::If { then_b, else_b, .. } => {
                assert(bs2[then_b as int] == bs[then_b as int]);
                lemma_block_grow(bs, bs2, m, q + 1, child_indent(m, q + 1, deeper(l.0)), bs[then_b as int]@);
                let e = block(bs, m, q + 1, child_indent(m, q + 1, deeper(l.0)), bs[then_b as int]@)->0;
                let f = first_nonblank(m, e);
                if e <= f < m.len() && m[f].0 == l.0 && m[f].1[0].kind is Else {
                    match else_b {
                        Some(eb) => {
                            assert(bs2[eb as int] == bs[eb as int]);
                            lemma_block_grow(bs, bs2, m, f + 1, child_indent(m, f + 1, deeper(m[f].0)), bs[eb as int]@);
                        },
                        None => {},
                    }
                }
            },
            _ => {},
        },
        _ => {},
    }
}

proof fn lemma_block_grow(bs: Seq<Vec<Stmt>>, bs2: Seq<Vec<Stmt>>, m: Seq<LineView>, p: int, min: int, ss: Seq<Stmt>)
    requires
        extends(bs, bs2),
        block(bs, m, p, min, ss) is Some,
    ensures
        block(bs2, m, p, min, ss) == block(bs, m, p, min, ss),
    decreases m.len() - p, ss.len() + 1,
{
    lemma_consume_grow(bs, bs2, m, p, min, ss);
}

/// One source line, prepared for block parsing.
struct Line {
    indent: usize,
    line_no: u32,
    toks: Vec<Token>,
    trimmed: String,
}

/// An exact copy of a token.
pub fn clone_token(t: &Token) -> (r: Token)
    ensures
        r == *t,
{
    let kind = match &t.kind {
        Tok::Maak => Tok::Maak,
        Tok::Print => Tok::Print,
        Tok::Random => Tok::Random,
        Tok::WrapMode => Tok::WrapMode,
        Tok::Loop(w) => Tok::Loop(*w),
        Tok::LoopKeer => Tok::LoopKeer,
        Tok::Stop => Tok::Stop,
        Tok::If => Tok::If,
        Tok::Else => Tok::Else,
        Tok::Compare(c) => Tok::Compare(*c),
        Tok::Verb(v) => Tok::Verb(*v),
        Tok::Type(ty) => Tok::Type(*ty),
        Tok::Colour(c) => Tok::Colour(*c),
        Tok::Osc(o) => Tok::Osc(*o),
        Tok::Env(e) => Tok::Env(*e),
        Tok::Note(n, b) => Tok::Note(*n, *b),
        Tok::Const(c) => Tok::Const(*c),
        Tok::Number(n) => Tok::Number(*n),
        Tok::BigNumber(s) => Tok::BigNumber(s.clone()),
        Tok::Str(s) => Tok::Str(s.clone()),
        Tok::Op(o) => Tok::Op(*o),
        Tok::LParen => Tok::LParen,
        Tok::RParen => Tok::RParen,
        Tok::LBracket => Tok::LBracket,
        Tok::RBracket => Tok::RBracket,
        Tok::Name(s) => Tok::Name(s.clone()),
        Tok::Unknown(c) => Tok::Unknown(*c),
    };
    Token { kind, col: t.col, len: t.len, ok: t.ok }
}

/// A copy of `ts[a..b]`.
pub fn token_range(ts: &[Token], a: usize, b: usize) -> (r: Vec<Token>)
    requires
        a <= b <= ts@.len(),
    ensures
        r@ == ts@.subrange(a as int, b as int),
{
    let mut r: Vec<Token> = Vec::new();
    let mut k = a;
    while k < b
        invariant
            a <= k <= b <= ts@.len(),
            r@ == ts@.subrange(a as int, k as int),
        decreases b - k,
    {
        r.push(clone_token(&ts[k]));
        k += 1;
        assert(r@ =~= ts@.subrange(a as int, k as int));
    }
    r
}

pub open spec fn is_bracket(t: Tok) -> bool {
    t is LBracket || t is RBracket
}

/// The tokens of `ts` other than `[` and `]`, in order.
pub open spec fn unbracketed(ts: Seq<Token>) -> Seq<Token>
    decreases ts.len(),
{
    if ts.len() == 0 {
        ts
    } else if is_bracket(ts.last().kind) {
        unbracketed(ts.drop_last())
    } else {
        unbracketed(ts.drop_last()).push(ts.last())
    }
}

pub fn without_brackets(ts: &[Token]) -> (r: Vec<Token>)
    ensures
        r@ == unbracketed(ts@),
{
    let mut r: Vec<Token> = Vec::new();
    let mut k: usize = 0;
    while k < ts.len()
        invariant
            k <= ts@.len(),
            r@ == unbracketed(ts@.subrange(0, k as int)),
        decreases ts@.len() - k,
    {
        let t = &ts[k];
        proof {
            assert(ts@.subrange(0, k + 1).drop_last() =~= ts@.subrange(0, k as int));
        }
        match t.kind {
            Tok::LBracket | Tok::RBracket => {},
            _ => r.push(clone_token(t)),
        }
        k += 1;
    }
    assert(ts@.subrange(0, ts@.len() as int) =~= ts@);
    r
}

fn leading_blanks(cs: &[char]) -> (n: usize)
    ensures
        n <= cs@.len(),
        forall|k: int| 0 <= k < n ==> (#[trigger] cs@[k] == ' ' || cs@[k] == '\t'),
        n < cs@.len() ==> cs@[n as int] != ' ' && cs@[n as int] != '\t',
{
    let mut n: usize = 0;
    while n < cs.len() && (cs[n] == ' ' || cs[n] == '\t')
        invariant
            n <= cs@.len(),
            forall|k: int| 0 <= k < n ==> (#[trigger] cs@[k] == ' ' || cs@[k] == '\t'),
        decreases cs@.len() - n,
    {
        n += 1;
    }
    n
}

spec fn line_view(l: Line) -> LineView {
    (l.indent as int, l.toks@, l.trimmed@, l.line_no)
}

spec fn lines_view(ls: Seq<Line>) -> Seq<LineView> {
    ls.map_values(|l: Line| line_view(l))
}

proof fn lemma_lead_blanks(cs: Seq<char>, n: int)
    requires
        0 <= n <= cs.len(),
        forall|k: int| 0 <= k < n ==> (#[trigger] cs[k] == ' ' || cs[k] == '\t'),
        n < cs.len() ==> cs[n] != ' ' && cs[n] != '\t',
    ensures
        lead_blanks(cs) == n,
    decreases n,
{
    if n > 0 {
        let d = cs.drop_first();
        assert forall|k: int| 0 <= k < n - 1 implies (#[trigger] d[k] == ' ' || d[k] == '\t') by {
            assert(d[k] == cs[k + 1]);
        }
        if n - 1 < d.len() {
            assert(d[n - 1] == cs[n]);
        }
        lemma_lead_blanks(d, n - 1);
    }
}

fn make_line(seg: &[char], index: usize) -> (l: Line)
    ensures
        line_fits(seg@, index as int, line_view(l)),
{
    let indent = leading_blanks(seg);
    proof {
        lemma_lead_blanks(seg@, indent as int);
    }
    let raw = tokenize_chars(seg);
    let toks = without_brackets(raw.as_slice());
    let t = trim_chars(seg);
    let trimmed = chars_to_string(t.as_slice());
    let n: u128 = (index as u128 + 1) % 4294967296;
    let line_no = n as u32;
    let l = Line { indent, line_no, toks, trimmed };
    proof {
        assert(lexed(seg@, raw@));
        let (a, b) = choose|a: int, b: int| trim_bounds(seg@, a, b) && t@ == seg@.subrange(a, b);
        assert(trim_bounds(seg@, a, b));
    }
    l
}

proof fn lemma_next_newline_is(cs: Seq<char>, from: int, e: int)
    requires
        0 <= from <= e <= cs.len(),
        forall|k: int| from <= k < e ==> #[trigger] cs[k] != '\n',
        e == cs.len() || cs[e] == '\n',
    ensures
        next_newline(cs, from) == e,
    decreases e - from,
{
    if from < e {
        lemma_next_newline_is(cs, from + 1, e);
    }
}

/// The source split at every `\n` (as `str::split` does: `n` newlines give `n + 1` lines).
fn split_lines(cs: &[char]) -> (lines: Vec<Line>)
    ensures
        lines@.len() >= 1,
        lines_fit(cs@, lines_view(lines@)),
{
    let mut lines: Vec<Line> = Vec::new();
    let mut start: usize = 0;
    let ghost mut done_texts: Seq<Seq<char>> = Seq::empty();
    proof {
        assert(text_lines(cs@) =~= done_texts + text_lines_from(cs@, 0));
    }
    loop
        invariant_except_break
            start <= cs@.len(),
            lines@.len() == done_texts.len(),
            text_lines(cs@) == done_texts + text_lines_from(cs@, start as int),
            forall|j: int| 0 <= j < lines@.len() ==> line_fits(done_texts[j], j, #[trigger] line_view(lines@[j])),
        ensures
            lines@.len() >= 1,
            lines@.len() == done_texts.len(),
            text_lines(cs@) == done_texts,
            forall|j: int| 0 <= j < lines@.len() ==> line_fits(done_texts[j], j, #[trigger] line_view(lines@[j])),
        decreases cs@.len() - start,
    {
        let mut e = start;
        while e < cs.len() && cs[e] != '\n'
            invariant
                start <= e <= cs@.len(),
                forall|k: int| start <= k < e ==> #[trigger] cs@[k] != '\n',
            decreases cs@.len() - e,
        {
            e += 1;
        }
        proof {
            lemma_next_newline_is(cs@, start as int, e as int);
        }
        let seg = copy_range(cs, start, e);
        let index = lines.len();
        let l = make_line(seg.as_slice(), index);
        lines.push(l);
        let ghost rest = text_lines_from(cs@, start as int);
        proof {
            done_texts = done_texts.push(seg@);
        }
        if e >= cs.len() {
            proof {
                assert(rest =~= seq![seg@]);
                assert(text_lines(cs@) =~= done_texts);
            }
            break;
        }
        start = e + 1;
        proof {
            assert(rest =~= seq![seg@].add(text_lines_from(cs@, start as int)));
            assert(text_lines(cs@) =~= done_texts + text_lines_from(cs@, start as int));
        }
    }
    proof {
        assert(lines_view(lines@).len() == lines@.len());
        assert forall|k: int| 0 <= k < lines_view(lines@).len() implies line_fits(
            text_lines(cs@)[k],
            k,
            #[trigger] lines_view(lines@)[k],
        ) by {
            assert(lines_view(lines@)[k] == line_view(lines@[k]));
        }
    }
    lines
}

fn is_blank_line(l: &Line) -> (r: bool)
    ensures
        r == (l.toks@.len() == 0),
{
    l.toks.len() == 0
}

/// The indentation of the block that starts after line `p`: taken from the next non-blank line.
fn next_indent(lines: &Vec<Line>, p: usize, fallback: usize) -> (r: usize)
    requires
        p <= lines@.len(),
    ensures
        r == child_indent(lines_view(lines@), p as int, fallback as int),
{
    let ghost m = lines_view(lines@);
    let mut q = p;
    while q < lines.len() && is_blank_line(&lines[q])
        invariant
            p <= q <= lines@.len(),
            m == lines_view(lines@),
            forall|k: int| p <= k < q ==> (#[trigger] m[k]).1.len() == 0,
        decreases lines@.len() - q,
    {
        assert(m[q as int] == line_view(lines@[q as int]));
        q += 1;
    }
    proof {
        lemma_first_nonblank_skip(m, p as int, q as int);
        if q < lines.len() {
            assert(m[q as int] == line_view(lines@[q as int]));
        }
    }
    if q < lines.len() {
        let ind = lines[q].indent;
        let lo = if ind > 1 { ind } else { 1 };
        let hi = if fallback > ind { fallback } else { ind };
        if lo < hi { lo } else { hi }
    } else {
        fallback
    }
}

/// The position of the first `keer` at or after `from` (the length when there is none).
pub open spec fn first_keer(h: Seq<Token>, from: int) -> int
    decreases h.len() - from,
{
    if from < 0 || from >= h.len() {
        h.len() as int
    } else if h[from].kind is LoopKeer {
        from
    } else {
        first_keer(h, from + 1)
    }
}

/// The position of the first comparison word at or after `from` (the length when there is none).
pub open spec fn first_compare(h: Seq<Token>, from: int) -> int
    decreases h.len() - from,
{
    if from < 0 || from >= h.len() {
        h.len() as int
    } else if h[from].kind is Compare {
        from
    } else {
        first_compare(h, from + 1)
    }
}

pub open spec fn imax(a: int, b: int) -> int {
    if a >= b { a } else { b }
}

/// A loop header's shape: unbounded or not, and its count expression. `herhaal n` counts the
/// rest of the line; `doe n keer` counts what stands before `keer`; a bare `doe` is unbounded;
/// a `doe` with more words but no `keer` counts the rest of the line.
pub open spec fn loop_shape(h: Seq<Token>) -> (bool, Option<Seq<Token>>) {
    let n = h.len() as int;
    let from: int = if n > 0 { 1 } else { 0 };
    let w = if n > 0 && h[0].kind is Loop { h[0].kind->Loop_0 } else { LoopWord::Herhaal };
    if w == LoopWord::Herhaal {
        (false, Some(h.subrange(from, n)))
    } else {
        let k = first_keer(h, 0);
        if k < n {
            (false, Some(h.subrange(from, imax(k, from))))
        } else if n == 1 {
            (true, None)
        } else {
            (false, Some(h.subrange(from, n)))
        }
    }
}

/// An `als` header's shape: the left side, the comparison and the right side, split at the
/// first comparison word; without one, the whole rest is the left side of `gelijk` to nothing.
pub open spec fn if_shape(h: Seq<Token>) -> (Seq<Token>, Cmp, Seq<Token>) {
    let n = h.len() as int;
    let from: int = if n > 0 { 1 } else { 0 };
    let k = first_compare(h, 0);
    if k < n {
        (h.subrange(from, imax(k, from)), h[k].kind->Compare_0, h.subrange(k + 1, n))
    } else {
        (h.subrange(from, n), Cmp::Gelijk, Seq::empty())
    }
}

pub open spec fn opt_toks(o: Option<Vec<Token>>) -> Option<Seq<Token>> {
    match o {
        Some(v) => Some(v@),
        None => None,
    }
}

proof fn lemma_first_keer(h: Seq<Token>, from: int, e: int)
    requires
        0 <= from <= e <= h.len(),
        forall|j: int| from <= j < e ==> !(#[trigger] h[j].kind is LoopKeer),
        e == h.len() || h[e].kind is LoopKeer,
    ensures
        first_keer(h, from) == e,
    decreases e - from,
{
    if from < e {
        lemma_first_keer(h, from + 1, e);
    }
}

proof fn lemma_first_compare(h: Seq<Token>, from: int, e: int)
    requires
        0 <= from <= e <= h.len(),
        forall|j: int| from <= j < e ==> !(#[trigger] h[j].kind is Compare),
        e == h.len() || h[e].kind is Compare,
    ensures
        first_compare(h, from) == e,
    decreases e - from,
{
    if from < e {
        lemma_first_compare(h, from + 1, e);
    }
}

fn make_loop(header: &Vec<Token>, line: u32, body: usize) -> (s: Stmt)
    ensures
        s matches Stmt::Loop { body: b, unbounded, count, .. } && b == body && (unbounded, opt_toks(count)) == loop_shape(header@),
        line_of(s) == line,
{
    let w = if header.len() > 0 {
        match header[0].kind {
            Tok::Loop(w) => w,
            _ => LoopWord::Herhaal,
        }
    } else {
        LoopWord::Herhaal
    };
    let n = header.len();
    let from: usize = if n > 0 { 1 } else { 0 };
    match w {
        LoopWord::Herhaal => Stmt::Loop { line, unbounded: false, count: Some(token_range(header.as_slice(), from, n)), body },
        LoopWord::Doe => {
            let mut k: usize = 0;
            while k < n && !matches!(header[k].kind, Tok::LoopKeer)
                invariant
                    k <= n == header@.len(),
                    forall|j: int| 0 <= j < k ==> !(#[trigger] header@[j].kind is LoopKeer),
                decreases n - k,
            {
                k += 1;
            }
            proof {
                lemma_first_keer(header@, 0, k as int);
            }
            if k < n {
                let to = if k >= from { k } else { from };
                Stmt::Loop { line, unbounded: false, count: Some(token_range(header.as_slice(), from, to)), body }
            } else if n == 1 {
                Stmt::Loop { line, unbounded: true, count: None, body }
            } else {
                Stmt::Loop { line, unbounded: false, count: Some(token_range(header.as_slice(), from, n)), body }
            }
        },
    }
}

fn make_if(header: &Vec<Token>, line: u32, then_b: usize, else_b: Option<usize>) -> (s: Stmt)
    ensures
        s matches Stmt::If { then_b: t, else_b: e, lhs, relation, rhs, .. } && t == then_b && e == else_b && (lhs@, relation, rhs@)
            == if_shape(header@),
        line_of(s) == line,
{
    let n = header.len();
    let from: usize = if n > 0 { 1 } else { 0 };
    let mut k: usize = 0;
    while k < n && !matches!(header[k].kind, Tok::Compare(_))
        invariant
            k <= n == header@.len(),
            forall|j: int| 0 <= j < k ==> !(#[trigger] header@[j].kind is Compare),
        decreases n - k,
    {
        k += 1;
    }
    proof {
        lemma_first_compare(header@, 0, k as int);
    }
    if k < n {
        let relation = match header[k].kind {
            Tok::Compare(c) => c,
            _ => Cmp::Gelijk,
        };
        let to = if k >= from { k } else { from };
        let lhs = token_range(header.as_slice(), from, to);
        let rhs = token_range(header.as_slice(), k + 1, n);
        Stmt::If { line, lhs, relation, rhs, then_b, else_b }
    } else {
        Stmt::If { line, lhs: token_range(header.as_slice(), from, n), relation: Cmp::Gelijk, rhs: Vec::new(), then_b, else_b }
    }
}

proof fn lemma_refs_grow(s: Stmt, n: nat, m: nat)
    requires
        stmt_refs_below(s, n),
        n <= m,
    ensures
        stmt_refs_below(s, m),
{
}

/// Parse the block of lines starting at `p0` whose lines are indented at least `min_indent`.
/// Returns the new block's index and the first line after it.
fn parse_block(lines: &Vec<Line>, p0: usize, min_indent: usize, blocks: &mut Vec<Vec<Stmt>>) -> (r: (usize, usize))
    requires
        p0 <= lines@.len(),
        blocks_ok(old(blocks)@),
    ensures
        p0 <= r.1 <= lines@.len(),
        r.0 < final(blocks)@.len(),
        blocks_ok(final(blocks)@),
        extends(old(blocks)@, final(blocks)@),
        block(final(blocks)@, lines_view(lines@), p0 as int, min_indent as int, final(blocks)@[r.0 as int]@) == Some(r.1 as int),
    decreases lines@.len() - p0,
{
    let ghost m = lines_view(lines@);
    let mut out: Vec<Stmt> = Vec::new();
    let mut p = p0;
    let ghost mut e: int = p0 as int;
    proof {
        assert(consume(blocks@, m, p0 as int, min_indent as int, out@) == Some(p0 as int));
    }
    while p < lines.len()
        invariant
            p0 <= p <= lines@.len(),
            m == lines_view(lines@),
            blocks_ok(blocks@),
            extends(old(blocks)@, blocks@),
            forall|i: int| 0 <= i < out@.len() ==> stmt_refs_below(#[trigger] out@[i], blocks@.len()),
            p0 <= e <= p,
            consume(blocks@, m, p0 as int, min_indent as int, out@) == Some(e),
            forall|k: int| e <= k < p ==> (#[trigger] m[k]).1.len() == 0,
        ensures
            p >= lines@.len() || (m[p as int].1.len() > 0 && m[p as int].0 < min_indent as int),
        decreases lines@.len() - p,
    {
        assert(m[p as int] == line_view(lines@[p as int]));
        if is_blank_line(&lines[p]) {
            p += 1;
            continue;
        }
        let ind = lines[p].indent;
        if ind < min_indent {
            break;
        }
        let line_no = lines[p].line_no;
        let ghost len_before = blocks@.len();
        let ghost bs0 = blocks@;
        let ghost out0 = out@;
        proof {
            lemma_first_nonblank_skip(m, e, p as int);
        }
        match lines[p].toks[0].kind {
            Tok::Loop(_) => {
                let header = &lines[p].toks;
                let ci = next_indent(lines, p + 1, if ind < usize::MAX { ind + 1 } else { ind });
                let (b, p2) = parse_block(lines, p + 1, ci, blocks);
                let s = make_loop(header, line_no, b);
                proof {
                    assert forall|i: int| 0 <= i < out@.len() implies stmt_refs_below(#[trigger] out@[i], blocks@.len()) by {
                        lemma_refs_grow(out@[i], len_before, blocks@.len());
                    }
                    lemma_consume_grow(bs0, blocks@, m, p0 as int, min_indent as int, out0);
                    assert(head_stmt(blocks@, m, p as int, s) == Some(p2 as int));
                    lemma_consume_push(blocks@, m, p0 as int, min_indent as int, out0, s, p2 as int);
                }
                out.push(s);
                p = p2;
                proof {
                    e = p2 as int;
                }
            },
            Tok::If => {
                let header = &lines[p].toks;
                let ci = next_indent(lines, p + 1, if ind < usize::MAX { ind + 1 } else { ind });
                let (tb, p2) = parse_block(lines, p + 1, ci, blocks);
                let ghost bs1 = blocks@;
                let mut q = p2;
                while q < lines.len() && is_blank_line(&lines[q])
                    invariant
                        p2 <= q <= lines@.len(),
                        m == lines_view(lines@),
                        forall|k: int| p2 <= k < q ==> (#[trigger] m[k]).1.len() == 0,
                    decreases lines@.len() - q,
                {
                    assert(m[q as int] == line_view(lines@[q as int]));
                    q += 1;
                }
                proof {
                    lemma_first_nonblank_skip(m, p2 as int, q as int);
                    if q < lines.len() {
                        assert(m[q as int] == line_view(lines@[q as int]));
                    }
                }
                let ghost len_mid = blocks@.len();
                let mut else_b: Option<usize> = None;
                let mut p3 = p2;
                if q < lines.len() && lines[q].indent == ind && matches!(lines[q].toks[0].kind, Tok::Else) {
                    let ei = lines[q].indent;
                    let ci2 = next_indent(lines, q + 1, if ei < usize::MAX { ei + 1 } else { ei });
                    let (eb, p4) = parse_block(lines, q + 1, ci2, blocks);
                    else_b = Some(eb);
                    p3 = p4;
                    proof {
                        lemma_block_grow(bs1, blocks@, m, p as int + 1, ci as int, bs1[tb as int]@);
                        assert(blocks@[tb as int] == bs1[tb as int]);
                    }
                }
                let s = make_if(header, line_no, tb, else_b);
                proof {
                    assert forall|i: int| 0 <= i < out@.len() implies stmt_refs_below(#[trigger] out@[i], blocks@.len()) by {
                        lemma_refs_grow(out@[i], len_before, blocks@.len());
                    }
                    lemma_consume_grow(bs0, blocks@, m, p0 as int, min_indent as int, out0);
                    assert(head_stmt(blocks@, m, p as int, s) == Some(p3 as int));
                    lemma_consume_push(blocks@, m, p0 as int, min_indent as int, out0, s, p3 as int);
                }
                out.push(s);
                p = p3;
                proof {
                    e = p3 as int;
                }
            },
            _ => {
                let toks = token_range(lines[p].toks.as_slice(), 0, lines[p].toks.len());
                let src = lines[p].trimmed.clone();
                let s = Stmt::Simple { line: line_no, toks, src };
                proof {
                    assert(toks@ =~= m[p as int].1);
                    assert(head_stmt(blocks@, m, p as int, s) == Some(p as int + 1));
                    lemma_consume_push(blocks@, m, p0 as int, min_indent as int, out0, s, p as int + 1);
                }
                out.push(s);
                p += 1;
                proof {
                    e = p as int;
                }
            },
        }
    }
    proof {
        lemma_first_nonblank_skip(m, e, p as int);
        if p < lines.len() {
            assert(m[p as int] == line_view(lines@[p as int]));
        }
        assert(block(blocks@, m, p0 as int, min_indent as int, out@) == Some(p as int));
    }
    let ghost old_blocks = blocks@;
    let ghost out_v = out@;
    let id = blocks.len();
    blocks.push(out);
    proof {
        assert forall|b: int, i: int| 0 <= b < blocks@.len() && 0 <= i < blocks@[b]@.len() implies stmt_refs_below(
            #[trigger] blocks@[b]@[i],
            blocks@.len(),
        ) by {
            if b < old_blocks.len() {
                assert(blocks@[b] == old_blocks[b]);
                lemma_refs_grow(old_blocks[b]@[i], old_blocks.len(), blocks@.len());
            } else {
                lemma_refs_grow(out_v[i], old_blocks.len(), blocks@.len());
            }
        }
        assert(extends(old_blocks, blocks@));
        lemma_block_grow(old_blocks, blocks@, m, p0 as int, min_indent as int, out_v);
    }
    (id, p)
}

/// Compile source text into a statement tree: the top block holds the statements of all the
/// lines, each read as `block` says (a loop or `als` line owns the more indented lines below it).
pub fn compile(src: &str) -> (p: Program)
    ensures
        p.wf(),
        exists|m: Seq<LineView>| #[trigger] lines_fit(src@, m) && block(p.blocks@, m, 0, 0, p.blocks@[p.root as int]@) == Some(
            m.len() as int,
        ),
{
    let cs = str_chars(src);
    let lines = split_lines(cs.as_slice());
    let mut blocks: Vec<Vec<Stmt>> = Vec::new();
    let (root, end) = parse_block(&lines, 0, 0, &mut blocks);
    let p = Program { blocks, root };
    proof {
        let m = lines_view(lines@);
        lemma_consume_bounds(p.blocks@, m, 0, 0, p.blocks@[root as int]@);
        let e = consume(p.blocks@, m, 0, 0, p.blocks@[root as int]@)->0;
        lemma_first_nonblank(m, e);
        let f = first_nonblank(m, e);
        if f < m.len() {
            assert(m[f] == line_view(lines@[f]));
        }
        assert(end == m.len());
        assert(lines_fit(src@, m));
    }
    p
}

} // verus!
